use vstd::prelude::*;
use crate::action_optimization::graph_entity::{
    avoids,
    edge_links,
    edges_of,
    incoming,
    lemma_links,
    not_among,
    outgoing,
    planned,
    raw_id,
    spec_from_graph,
    spec_to_graph,
    strip,
    strip_all,
    stripper,
    from_graph,
    to_graph,
    ActionGraph,
    Edge,
    GraphView,
    NewEdge,
    OptimizeError,
    MAX_ACTIONS,
    RelationType,
};
use crate::action_optimization::net::{
    at_node,
    connected,
    detour_links,
    detours,
    raw_edges,
    slot_carrier,
    slot_links,
    spec_carries_slot,
    EdgeRef,
    RawEdge,
};
use crate::action_optimization::seq_facts::{
    distinct_keys,
    lemma_filter_all,
    lemma_filter_concat,
    lemma_filter_map,
    lemma_filter_member,
    lemma_filter_same,
    lemma_filter_step,
};
use crate::action_optimization::util::{
    as_ints,
    get_all_cards,
    get_all_sources,
    spec_all_cards,
    spec_all_sources,
};
use petgraph::Direction;
use std::collections::HashSet;
use crate::actions::base::{All, Bunkerize, DragonKill, Goal};
use crate::actions::move_action::Move;
use crate::board::cards::CardType;
use crate::board::positions::PositionNoGoal;

verus! {

/// Why two actions were not merged into one.
#[derive(Debug, Clone, Copy, PartialEq, Eq, Structural)]
pub enum MergeRefusal {
    /// The parent takes cards from more than one place.
    ManySources,
    /// The parent took the card from the bunker, and the child puts it there.
    BunkerToBunker,
    /// The child is a dragon kill.
    DragonKill,
    /// Both actions take the card out of the bunker: no sequence of actions
    /// holds such a pair.
    DoubleDebunkerize,
    /// The child is a flower kill: it has no parent of this kind.
    HuaKill,
    /// The child moves several cards, and the parent took its card from the bunker.
    StackFromBunker,
    /// The child moves the flower, and the parent took its card from the bunker.
    HuaFromBunker,
}

impl MergeRefusal {
    /// Whether the refusal shows that the actions are no part of a game: the
    /// optimization ends with it. After any other one the pair stays as it is.
    pub open spec fn spec_is_fatal(self) -> bool {
        self == MergeRefusal::DoubleDebunkerize || self == MergeRefusal::HuaKill || self
            == MergeRefusal::StackFromBunker || self == MergeRefusal::HuaFromBunker
    }

    /// The error that ends the optimization after a fatal refusal.
    pub open spec fn spec_error(self) -> OptimizeError {
        match self {
            MergeRefusal::DoubleDebunkerize => OptimizeError::DoubleDebunkerize,
            MergeRefusal::HuaKill => OptimizeError::HuaKillChild,
            MergeRefusal::HuaFromBunker => OptimizeError::HuaFromBunker,
            _ => OptimizeError::StackFromBunker,
        }
    }

    /// Whether the refusal ends the optimization.
    pub fn is_fatal(&self) -> (result: bool)
        ensures
            result == self.spec_is_fatal(),
    {
        match self {
            MergeRefusal::DoubleDebunkerize
            | MergeRefusal::HuaKill
            | MergeRefusal::StackFromBunker
            | MergeRefusal::HuaFromBunker => true,
            _ => false,
        }
    }

    /// The error that ends the optimization after a fatal refusal.
    pub fn error(&self) -> (result: OptimizeError)
        ensures
            result == self.spec_error(),
    {
        match self {
            MergeRefusal::DoubleDebunkerize => OptimizeError::DoubleDebunkerize,
            MergeRefusal::HuaKill => OptimizeError::HuaKillChild,
            MergeRefusal::HuaFromBunker => OptimizeError::HuaFromBunker,
            _ => OptimizeError::StackFromBunker,
        }
    }
}

/// The one action that does what `parent_action` and then `descendant_action`
/// do to the card that both touch, where there is such an action.
pub open spec fn spec_merge_actions(descendant_action: All, parent_action: All) -> Result<
    All,
    MergeRefusal,
> {
    let parent_sources = spec_all_sources(parent_action);
    match descendant_action {
        All::DragonKill(_) => Err(MergeRefusal::DragonKill),
        All::HuaKill(_) => Err(MergeRefusal::HuaKill),
        _ => if parent_sources.len() != 1 {
            Err(MergeRefusal::ManySources)
        } else {
            match (descendant_action, parent_sources[0]) {
                (All::Bunkerize(action), PositionNoGoal::Field(parent_field)) => if action.to_bunker {
                    Ok(All::Bunkerize(Bunkerize { field_position: parent_field, ..action }))
                } else {
                    Ok(
                        All::Move(
                            Move::spec_single(
                                parent_field,
                                action.field_position,
                                action.card.with_hua(),
                            ),
                        ),
                    )
                },
                (All::Bunkerize(action), PositionNoGoal::Bunker { .. }) => if action.to_bunker {
                    Err(MergeRefusal::BunkerToBunker)
                } else {
                    Err(MergeRefusal::DoubleDebunkerize)
                },
                (All::Goal(action), source) => Ok(All::Goal(Goal { source, ..action })),
                (All::Move(action), PositionNoGoal::Field(parent_field)) => Ok(
                    All::Move(action.spec_with_source(parent_field)),
                ),
                (All::Move(action), PositionNoGoal::Bunker { slot_index }) => if action.spec_stack_len()
                    != 1 {
                    Err(MergeRefusal::StackFromBunker)
                } else if action.spec_start_card() is Hua {
                    Err(MergeRefusal::HuaFromBunker)
                } else {
                    Ok(
                        All::Bunkerize(
                            Bunkerize {
                                bunker_slot_index: slot_index,
                                card: action.spec_start_card().without_hua(),
                                field_position: action.spec_destination(),
                                to_bunker: false,
                            },
                        ),
                    )
                },
                _ => Err(MergeRefusal::DragonKill),
            }
        },
    }
}

/// Merges a parent action into the action that takes the card which the
/// parent put down.
pub fn merge_actions(descendant_action: &All, parent_action: &All) -> (result: Result<
    All,
    MergeRefusal,
>)
    ensures
        result == spec_merge_actions(*descendant_action, *parent_action),
{
    match descendant_action {
        All::Bunkerize(action) => {
            let parent_source = get_all_sources(*parent_action);
            if parent_source.len() != 1 {
                return Err(MergeRefusal::ManySources);
            }
            let parent_source = parent_source[0];
            if action.to_bunker {
                match parent_source {
                    PositionNoGoal::Field(parent_field) => Ok(
                        All::Bunkerize(
                            Bunkerize {
                                card: action.card,
                                bunker_slot_index: action.bunker_slot_index,
                                field_position: parent_field,
                                to_bunker: action.to_bunker,
                            },
                        ),
                    ),
                    PositionNoGoal::Bunker { .. } => Err(MergeRefusal::BunkerToBunker),
                }
            } else {
                match parent_source {
                    PositionNoGoal::Field(parent_field) => {
                        let cards = [action.card.add_hua()];
                        Ok(All::Move(Move::new(parent_field, action.field_position, &cards)))
                    },
                    PositionNoGoal::Bunker { .. } => Err(MergeRefusal::DoubleDebunkerize),
                }
            }
        },
        All::DragonKill(_) => Err(MergeRefusal::DragonKill),
        All::Goal(action) => {
            let parent_source = get_all_sources(*parent_action);
            if parent_source.len() != 1 {
                return Err(MergeRefusal::ManySources);
            }
            Ok(
                All::Goal(
                    Goal {
                        card: action.card,
                        source: parent_source[0],
                        goal_slot_index: action.goal_slot_index,
                    },
                ),
            )
        },
        All::HuaKill(_) => Err(MergeRefusal::HuaKill),
        All::Move(action) => {
            let parent_source = get_all_sources(*parent_action);
            if parent_source.len() != 1 {
                return Err(MergeRefusal::ManySources);
            }
            match parent_source[0] {
                PositionNoGoal::Field(parent_field) => Ok(
                    All::Move(action.with_source(parent_field)),
                ),
                PositionNoGoal::Bunker { slot_index } => {
                    if action.stack_len() != 1 {
                        return Err(MergeRefusal::StackFromBunker);
                    }
                    let card = action.cards()[0];
                    match card {
                        CardType::Hua => Err(MergeRefusal::HuaFromBunker),
                        _ => Ok(
                            All::Bunkerize(
                                Bunkerize {
                                    bunker_slot_index: slot_index,
                                    card: card.remove_hua(),
                                    field_position: action.destination(),
                                    to_bunker: false,
                                },
                            ),
                        ),
                    }
                },
            }
        },
    }
}

/// The slot that takes the place of `slot` when the slots `parent_slot`
/// and `child_slot` change places.
pub open spec fn spec_swap_slot(slot: u8, parent_slot: u8, child_slot: u8) -> u8 {
    if slot == child_slot {
        parent_slot
    } else if slot == parent_slot {
        child_slot
    } else {
        slot
    }
}

/// The place that takes the place of `position` when two bunker slots change places.
pub open spec fn spec_swap_position(position: PositionNoGoal, parent_slot: u8, child_slot: u8)
    -> PositionNoGoal {
    match position {
        PositionNoGoal::Bunker { slot_index } => PositionNoGoal::Bunker {
            slot_index: spec_swap_slot(slot_index, parent_slot, child_slot),
        },
        PositionNoGoal::Field(_) => position,
    }
}

/// The action with the two bunker slots exchanged wherever it names one.
pub open spec fn spec_replace_bunker_slot(action: All, parent_slot: u8, child_slot: u8) -> All {
    match action {
        All::Bunkerize(a) => All::Bunkerize(
            Bunkerize {
                bunker_slot_index: spec_swap_slot(a.bunker_slot_index, parent_slot, child_slot),
                ..a
            },
        ),
        All::DragonKill(a) => All::DragonKill(
            DragonKill {
                card: a.card,
                source: [
                    spec_swap_position(a.source[0], parent_slot, child_slot),
                    spec_swap_position(a.source[1], parent_slot, child_slot),
                    spec_swap_position(a.source[2], parent_slot, child_slot),
                    spec_swap_position(a.source[3], parent_slot, child_slot),
                ],
                destination_slot_index: spec_swap_slot(
                    a.destination_slot_index,
                    parent_slot,
                    child_slot,
                ),
            },
        ),
        All::Goal(a) => All::Goal(
            Goal { source: spec_swap_position(a.source, parent_slot, child_slot), ..a },
        ),
        All::HuaKill(_) | All::Move(_) => action,
    }
}

fn swap_slot(slot: u8, parent_slot: u8, child_slot: u8) -> (result: u8)
    ensures
        result == spec_swap_slot(slot, parent_slot, child_slot),
{
    if slot == child_slot {
        parent_slot
    } else if slot == parent_slot {
        child_slot
    } else {
        slot
    }
}

fn swap_position(position: PositionNoGoal, parent_slot: u8, child_slot: u8) -> (result:
    PositionNoGoal)
    ensures
        result == spec_swap_position(position, parent_slot, child_slot),
{
    match position {
        PositionNoGoal::Bunker { slot_index } => PositionNoGoal::Bunker {
            slot_index: swap_slot(slot_index, parent_slot, child_slot),
        },
        PositionNoGoal::Field(_) => position,
    }
}

/// Exchanges the two bunker slots wherever the action names one of them.
pub fn replace_bunker_slot(action: All, parent_slot: u8, child_slot: u8) -> (result: All)
    ensures
        result == spec_replace_bunker_slot(action, parent_slot, child_slot),
{
    match action {
        All::Bunkerize(a) => All::Bunkerize(
            Bunkerize {
                card: a.card,
                bunker_slot_index: swap_slot(a.bunker_slot_index, parent_slot, child_slot),
                field_position: a.field_position,
                to_bunker: a.to_bunker,
            },
        ),
        All::DragonKill(a) => All::DragonKill(
            DragonKill {
                card: a.card,
                source: [
                    swap_position(a.source[0], parent_slot, child_slot),
                    swap_position(a.source[1], parent_slot, child_slot),
                    swap_position(a.source[2], parent_slot, child_slot),
                    swap_position(a.source[3], parent_slot, child_slot),
                ],
                destination_slot_index: swap_slot(
                    a.destination_slot_index,
                    parent_slot,
                    child_slot,
                ),
            },
        ),
        All::Goal(a) => All::Goal(
            Goal {
                card: a.card,
                source: swap_position(a.source, parent_slot, child_slot),
                goal_slot_index: a.goal_slot_index,
            },
        ),
        All::HuaKill(_) | All::Move(_) => action,
    }
}

/// Whether one of the edges is of the kind `kind`.
pub open spec fn has_kind(edges: Seq<Edge>, kind: RelationType) -> bool {
    exists|i: int| 0 <= i < edges.len() && (#[trigger] edges[i]).kind == kind
}

/// Whether one of the edges is a `Move` edge from another node than `parent`.
pub open spec fn has_stray_move(edges: Seq<Edge>, parent: int) -> bool {
    exists|i: int|
        0 <= i < edges.len() && (#[trigger] edges[i]).kind == RelationType::Move && edges[i].source
            != parent
}

/// The source of the last of the edges that is of the kind `kind`.
pub open spec fn last_source(edges: Seq<Edge>, kind: RelationType) -> Option<int>
    decreases edges.len(),
{
    if edges.len() == 0 {
        None
    } else if edges.last().kind == kind {
        Some(edges.last().source)
    } else {
        last_source(edges.drop_last(), kind)
    }
}

/// The test for an edge into the parent which the merged action inherits.
pub open spec fn inherits() -> spec_fn(Edge) -> bool {
    |e: Edge| e.kind == RelationType::Move || e.kind == RelationType::Clear
}

/// The edge from the same source, of the same kind, into `child`.
pub open spec fn retarget(child: int) -> spec_fn(Edge) -> Edge {
    |e: Edge| Edge { source: e.source, target: child, kind: e.kind }
}

/// The test for an edge from the parent which the merged action passes on.
pub open spec fn passes_on(child: int) -> spec_fn(Edge) -> bool {
    |e: Edge| (e.kind == RelationType::Unblock || e.kind == RelationType::Clear) && e.target != child
}

/// The edge to the same target, of the same kind, from `child`.
pub open spec fn resource(child: int) -> spec_fn(Edge) -> Edge {
    |e: Edge| Edge { source: child, target: e.target, kind: e.kind }
}

/// The test for an edge of the kind `kind`.
pub open spec fn of_kind(kind: RelationType) -> spec_fn(Edge) -> bool {
    |e: Edge| e.kind == kind
}

/// The edge to the same target from `source`, of the kind `kind`.
pub open spec fn rewire(source: int, kind: RelationType) -> spec_fn(Edge) -> Edge {
    |e: Edge| Edge { source, target: e.target, kind }
}

/// The test for an edge that stays when a parent is merged into `child`:
/// the clear edges from `child` go, and its unblock edges where
/// `drop_unblock` says so.
pub open spec fn survives(child: int, drop_unblock: bool) -> spec_fn(Edge) -> bool {
    |e: Edge|
        !(e.source == child && (e.kind == RelationType::Clear || (drop_unblock && e.kind
            == RelationType::Unblock)))
}

/// The action that emptied the cell which the parent filled, if an edge says so.
pub open spec fn unblock_parent(graph: GraphView, parent: int) -> Option<int> {
    last_source(incoming(graph.edges, parent), RelationType::Unblock)
}

/// The action that put down the card on which the parent put its own, if
/// an edge says so.
pub open spec fn socket_parent(graph: GraphView, parent: int) -> Option<int> {
    last_source(incoming(graph.edges, parent), RelationType::Socket)
}

/// The edges that stand for the unblock edges from the child once its
/// parent is gone: from the parent's unblock parent, or as socket edges
/// from its socket parent.
pub open spec fn spec_rewired(graph: GraphView, parent: int, child: int) -> Seq<Edge> {
    let unblocked = outgoing(graph.edges, child).filter(of_kind(RelationType::Unblock));
    match (unblock_parent(graph, parent), socket_parent(graph, parent)) {
        (Some(source), _) => unblocked.map_values(rewire(source, RelationType::Unblock)),
        (None, Some(source)) => unblocked.map_values(rewire(source, RelationType::Socket)),
        (None, None) => Seq::empty(),
    }
}

/// The edges that a merge adds, in the order in which it adds them.
pub open spec fn spec_merge_additions(graph: GraphView, parent: int, child: int) -> Seq<Edge> {
    incoming(graph.edges, parent).filter(inherits()).map_values(retarget(child)) + outgoing(
        graph.edges,
        parent,
    ).filter(passes_on(child)).map_values(resource(child)) + spec_rewired(graph, parent, child)
}

/// What is wrong with the edges round a parent and a child that are to be
/// merged, if anything is.
pub open spec fn spec_merge_obstacle(graph: GraphView, parent: usize, child: usize) -> Option<
    OptimizeError,
> {
    if !graph.nodes.contains_key(parent as int) {
        Some(OptimizeError::MissingNode { node: parent })
    } else if !graph.nodes.contains_key(child as int) {
        Some(OptimizeError::MissingNode { node: child })
    } else if has_kind(incoming(graph.edges, parent as int), RelationType::Goal) {
        Some(OptimizeError::GoalRelation { parent })
    } else if has_kind(outgoing(graph.edges, parent as int), RelationType::Socket) {
        Some(OptimizeError::SocketProvider { parent })
    } else if has_kind(outgoing(graph.edges, parent as int), RelationType::Goal) {
        Some(OptimizeError::GoalRelation { parent })
    } else if spec_all_cards(graph.nodes[child as int]).len() == 1 && has_stray_move(
        incoming(graph.edges, child as int),
        parent as int,
    ) {
        Some(OptimizeError::SecondMoveParent { child })
    } else if spec_all_cards(graph.nodes[child as int]).len() == 1 && has_kind(
        incoming(graph.edges, child as int),
        RelationType::Clear,
    ) {
        Some(OptimizeError::UnexplainedClear { child })
    } else if unblock_parent(graph, parent as int) is Some && socket_parent(graph, parent as int) is Some
        && has_kind(outgoing(graph.edges, child as int), RelationType::Unblock) {
        Some(OptimizeError::BothParents { parent })
    } else if graph.edges.len() + spec_merge_additions(graph, parent as int, child as int).len()
        > u32::MAX {
        Some(OptimizeError::TooLarge)
    } else {
        None
    }
}

/// The graph after the edges of `parent` have gone over to `child` and
/// `parent` has left it.
pub open spec fn spec_merged(graph: GraphView, parent: int, child: int) -> GraphView {
    let drop_unblock = unblock_parent(graph, parent) is Some || socket_parent(graph, parent) is Some;
    GraphView {
        nodes: graph.nodes.remove(parent),
        edges: (spec_merge_additions(graph, parent, child).reverse() + graph.edges.filter(
            survives(child, drop_unblock),
        )).filter(avoids(parent)),
    }
}

/// The graph after `parent` has been merged into `child`, or what forbids it.
pub open spec fn spec_merge_edges(graph: GraphView, parent: usize, child: usize) -> Result<
    GraphView,
    OptimizeError,
> {
    match spec_merge_obstacle(graph, parent, child) {
        Some(error) => Err(error),
        None => Ok(spec_merged(graph, parent as int, child as int)),
    }
}

/// An index as a number, where there is one.
pub open spec fn opt_int(index: Option<usize>) -> Option<int> {
    match index {
        Some(index) => Some(index as int),
        None => None,
    }
}

/// The test for an edge with a kind that a merge drops from the child.
pub open spec fn dropped(drop_unblock: bool) -> spec_fn(RawEdge) -> bool {
    |e: RawEdge| e.3 == RelationType::Clear || (drop_unblock && e.3 == RelationType::Unblock)
}

proof fn lemma_has_kind_step(edges: Seq<Edge>, i: int, kind: RelationType)
    requires
        0 <= i < edges.len(),
    ensures
        has_kind(edges.subrange(0, i + 1), kind) == (has_kind(edges.subrange(0, i), kind)
            || edges[i].kind == kind),
{
    let shorter = edges.subrange(0, i);
    let longer = edges.subrange(0, i + 1);
    if has_kind(shorter, kind) {
        let k = choose|k: int| 0 <= k < shorter.len() && (#[trigger] shorter[k]).kind == kind;
        assert(longer[k].kind == kind);
    }
    if edges[i].kind == kind {
        assert(longer[i].kind == kind);
    }
    if has_kind(longer, kind) {
        let k = choose|k: int| 0 <= k < longer.len() && (#[trigger] longer[k]).kind == kind;
        if k < i {
            assert(shorter[k].kind == kind);
        }
    }
}

proof fn lemma_last_source_step(edges: Seq<Edge>, i: int, kind: RelationType)
    requires
        0 <= i < edges.len(),
    ensures
        last_source(edges.subrange(0, i + 1), kind) == (if edges[i].kind == kind {
            Some(edges[i].source)
        } else {
            last_source(edges.subrange(0, i), kind)
        }),
{
    assert(edges.subrange(0, i + 1).drop_last() =~= edges.subrange(0, i));
}

/// Which edges a list of indices names, when the indices are those of the
/// edges from `child` with a dropped kind.
proof fn lemma_removed_ids(
    tagged: Seq<RawEdge>,
    child: int,
    drop_unblock: bool,
    ids: Seq<int>,
)
    requires
        distinct_keys(tagged, raw_id()),
        ids == tagged.filter(at_node(child, Direction::Outgoing)).filter(
            dropped(drop_unblock),
        ).map_values(raw_id()),
    ensures
        forall|k: int|
            0 <= k < tagged.len() ==> (ids.contains((#[trigger] tagged[k]).0) <==> (tagged[k].1
                == child && dropped(drop_unblock)(tagged[k]))),
{
    let from_child = tagged.filter(at_node(child, Direction::Outgoing));
    let gone = from_child.filter(dropped(drop_unblock));
    assert forall|k: int| 0 <= k < tagged.len() implies (ids.contains((#[trigger] tagged[k]).0)
        <==> (tagged[k].1 == child && dropped(drop_unblock)(tagged[k]))) by {
        let e = tagged[k];
        assert(tagged.contains(e));
        lemma_filter_member(tagged, at_node(child, Direction::Outgoing), e);
        lemma_filter_member(from_child, dropped(drop_unblock), e);
        if e.1 == child && dropped(drop_unblock)(e) {
            let m = choose|m: int| 0 <= m < gone.len() && gone[m] == e;
            assert(ids[m] == e.0);
        }
        if ids.contains(e.0) {
            let m = choose|m: int| 0 <= m < ids.len() && ids[m] == e.0;
            let other = gone[m];
            assert(gone.contains(other));
            lemma_filter_member(from_child, dropped(drop_unblock), other);
            lemma_filter_member(tagged, at_node(child, Direction::Outgoing), other);
            let j = choose|j: int| 0 <= j < tagged.len() && tagged[j] == other;
            assert(raw_id()(tagged[j]) == raw_id()(tagged[k]));
            if j < k {
                assert(false);
            }
            if k < j {
                assert(false);
            }
        }
    }
}

/// What the edges into a parent say for a merge.
pub struct ParentIn {
    /// The edges that the merged action inherits, led on to the child.
    pub addable: Vec<NewEdge>,
    /// The source of the last `Unblock` edge.
    pub unblocker: Option<usize>,
    /// The source of the last `Socket` edge.
    pub socket: Option<usize>,
}

/// Whether both ends of each edge are nodes of the graph.
pub open spec fn joins_nodes(graph: ActionGraph, edges: Seq<NewEdge>) -> bool {
    forall|k: int|
        0 <= k < edges.len() ==> graph.nodes().contains_key((#[trigger] edges[k]).source as int)
            && graph.nodes().contains_key(edges[k].target as int)
}

/// Reads the edges into `parent`: which of them the merged action
/// inherits, and from where the parent was unblocked or given a socket.
fn scan_parent_in(graph: &ActionGraph, parent: usize, child: usize) -> (result: Result<
    ParentIn,
    OptimizeError,
>)
    requires
        graph.wf(),
        graph.nodes().contains_key(child as int),
    ensures
        match result {
            Ok(found) => {
                &&& !has_kind(incoming(graph@.edges, parent as int), RelationType::Goal)
                &&& planned(found.addable@) == incoming(graph@.edges, parent as int).filter(
                    inherits(),
                ).map_values(retarget(child as int))
                &&& opt_int(found.unblocker) == unblock_parent(graph@, parent as int)
                &&& opt_int(found.socket) == socket_parent(graph@, parent as int)
                &&& found.unblocker matches Some(node) ==> graph.nodes().contains_key(node as int)
                &&& found.socket matches Some(node) ==> graph.nodes().contains_key(node as int)
                &&& joins_nodes(*graph, found.addable@)
            },
            Err(error) => has_kind(incoming(graph@.edges, parent as int), RelationType::Goal)
                && error == (OptimizeError::GoalRelation { parent }),
        },
{
    let mut addable: Vec<NewEdge> = Vec::new();
    let mut unblocker: Option<usize> = None;
    let mut socket: Option<usize> = None;
    let parent_in = graph.incoming(parent);
    let ghost pin = edges_of(parent_in@);
    let mut i: usize = 0;
    proof {
        assert(pin.subrange(0, 0) =~= Seq::<Edge>::empty());
        lemma_filter_all(pin.subrange(0, 0), inherits());
        assert(planned(addable@) =~= pin.subrange(0, 0).filter(inherits()).map_values(
            retarget(child as int),
        ));
    }
    while i < parent_in.len()
        invariant
            i <= parent_in@.len(),
            graph.wf(),
            pin == edges_of(parent_in@),
            pin == incoming(graph@.edges, parent as int),
            graph.nodes().contains_key(child as int),
            forall|k: int|
                0 <= k < parent_in@.len() ==> graph.nodes().contains_key(
                    (#[trigger] parent_in@[k]).source as int,
                ),
            opt_int(unblocker) == last_source(pin.subrange(0, i as int), RelationType::Unblock),
            opt_int(socket) == last_source(pin.subrange(0, i as int), RelationType::Socket),
            unblocker matches Some(node) ==> graph.nodes().contains_key(node as int),
            socket matches Some(node) ==> graph.nodes().contains_key(node as int),
            !has_kind(pin.subrange(0, i as int), RelationType::Goal),
            planned(addable@) == pin.subrange(0, i as int).filter(inherits()).map_values(
                retarget(child as int),
            ),
            joins_nodes(*graph, addable@),
        decreases parent_in@.len() - i,
    {
        let edge = parent_in[i];
        proof {
            assert(pin[i as int] == strip(edge.raw()));
            lemma_has_kind_step(pin, i as int, RelationType::Goal);
            lemma_last_source_step(pin, i as int, RelationType::Unblock);
            lemma_last_source_step(pin, i as int, RelationType::Socket);
            lemma_filter_step(pin, i as int, inherits());
        }
        match edge.kind {
            RelationType::Socket => {
                socket = Some(edge.source);
            },
            RelationType::Unblock => {
                unblocker = Some(edge.source);
            },
            RelationType::Move | RelationType::Clear => {
                let ghost before = planned(addable@);
                addable.push(NewEdge { source: edge.source, target: child, kind: edge.kind });
                assert(planned(addable@) =~= before.push(retarget(child as int)(pin[i as int])));
                assert(pin.subrange(0, i as int).filter(inherits()).push(pin[i as int]).map_values(
                    retarget(child as int),
                ) =~= before.push(retarget(child as int)(pin[i as int])));
            },
            RelationType::Goal => {
                proof {
                    assert(pin[i as int].kind == RelationType::Goal);
                }
                return Err(OptimizeError::GoalRelation { parent });
            },
        }
        i = i + 1;
    }
    assert(pin.subrange(0, pin.len() as int) =~= pin);
    Ok(ParentIn { addable, unblocker, socket })
}

/// Reads the edges from `parent`: adds those that the merged action
/// passes on to `addable`, led from the child.
fn scan_parent_out(
    graph: &ActionGraph,
    parent: usize,
    child: usize,
    addable: &mut Vec<NewEdge>,
) -> (result: Result<(), OptimizeError>)
    requires
        graph.wf(),
        graph.nodes().contains_key(child as int),
        joins_nodes(*graph, old(addable)@),
    ensures
        joins_nodes(*graph, final(addable)@),
        match result {
            Ok(()) => {
                &&& !has_kind(outgoing(graph@.edges, parent as int), RelationType::Socket)
                &&& !has_kind(outgoing(graph@.edges, parent as int), RelationType::Goal)
                &&& planned(final(addable)@) == planned(old(addable)@) + outgoing(
                    graph@.edges,
                    parent as int,
                ).filter(passes_on(child as int)).map_values(resource(child as int))
            },
            Err(error) => if has_kind(
                outgoing(graph@.edges, parent as int),
                RelationType::Socket,
            ) {
                error == (OptimizeError::SocketProvider { parent })
            } else {
                has_kind(outgoing(graph@.edges, parent as int), RelationType::Goal) && error == (
                OptimizeError::GoalRelation { parent })
            },
        },
{
    let ghost inherited = planned(addable@);
    let parent_out = graph.outgoing(parent);
    let ghost pout = edges_of(parent_out@);
    let mut saw_goal = false;
    let mut i: usize = 0;
    proof {
        assert(pout.subrange(0, 0) =~= Seq::<Edge>::empty());
        lemma_filter_all(pout.subrange(0, 0), passes_on(child as int));
        assert(planned(addable@) =~= inherited + pout.subrange(0, 0).filter(
            passes_on(child as int),
        ).map_values(resource(child as int)));
    }
    while i < parent_out.len()
        invariant
            i <= parent_out@.len(),
            graph.wf(),
            pout == edges_of(parent_out@),
            pout == outgoing(graph@.edges, parent as int),
            graph.nodes().contains_key(child as int),
            forall|k: int|
                0 <= k < parent_out@.len() ==> graph.nodes().contains_key(
                    (#[trigger] parent_out@[k]).target as int,
                ),
            !has_kind(pout.subrange(0, i as int), RelationType::Socket),
            saw_goal == has_kind(pout.subrange(0, i as int), RelationType::Goal),
            planned(addable@) == inherited + pout.subrange(0, i as int).filter(
                passes_on(child as int),
            ).map_values(resource(child as int)),
            joins_nodes(*graph, addable@),
        decreases parent_out@.len() - i,
    {
        let edge = parent_out[i];
        proof {
            assert(pout[i as int] == strip(edge.raw()));
            lemma_has_kind_step(pout, i as int, RelationType::Goal);
            lemma_has_kind_step(pout, i as int, RelationType::Socket);
            lemma_filter_step(pout, i as int, passes_on(child as int));
        }
        match edge.kind {
            RelationType::Move => {},
            RelationType::Unblock | RelationType::Clear => {
                if edge.target != child {
                    let ghost before = planned(addable@);
                    let ghost passed = pout.subrange(0, i as int).filter(passes_on(child as int));
                    addable.push(NewEdge { source: child, target: edge.target, kind: edge.kind });
                    assert(planned(addable@) =~= before.push(
                        resource(child as int)(pout[i as int]),
                    ));
                    assert(passed.push(pout[i as int]).map_values(resource(child as int))
                        =~= passed.map_values(resource(child as int)).push(
                        resource(child as int)(pout[i as int]),
                    ));
                    assert(planned(addable@) =~= inherited + passed.push(
                        pout[i as int],
                    ).map_values(resource(child as int)));
                }
            },
            RelationType::Socket => {
                proof {
                    assert(pout[i as int].kind == RelationType::Socket);
                }
                return Err(OptimizeError::SocketProvider { parent });
            },
            RelationType::Goal => {
                saw_goal = true;
            },
        }
        i = i + 1;
    }
    assert(pout.subrange(0, pout.len() as int) =~= pout);
    if saw_goal {
        return Err(OptimizeError::GoalRelation { parent });
    }
    Ok(())
}

/// Reads the edges into `child`: whether a `Move` edge comes from another
/// node than `parent`, and whether a `Clear` edge is among them.
fn scan_child_in(graph: &ActionGraph, parent: usize, child: usize) -> (result: (bool, bool))
    requires
        graph.wf(),
    ensures
        result.0 == has_stray_move(incoming(graph@.edges, child as int), parent as int),
        result.1 == has_kind(incoming(graph@.edges, child as int), RelationType::Clear),
{
    let child_in = graph.incoming(child);
    let ghost cin = edges_of(child_in@);
    let mut stray = false;
    let mut clear = false;
    let mut i: usize = 0;
    while i < child_in.len()
        invariant
            i <= child_in@.len(),
            cin == edges_of(child_in@),
            cin == incoming(graph@.edges, child as int),
            stray == has_stray_move(cin.subrange(0, i as int), parent as int),
            clear == has_kind(cin.subrange(0, i as int), RelationType::Clear),
        decreases child_in@.len() - i,
    {
        let edge = child_in[i];
        proof {
            assert(cin[i as int] == strip(edge.raw()));
            lemma_has_kind_step(cin, i as int, RelationType::Clear);
            lemma_has_stray_move_step(cin, i as int, parent as int);
        }
        if edge.kind == RelationType::Clear {
            clear = true;
        }
        if edge.kind == RelationType::Move && edge.source != parent {
            stray = true;
        }
        i = i + 1;
    }
    assert(cin.subrange(0, cin.len() as int) =~= cin);
    (stray, clear)
}

proof fn lemma_has_stray_move_step(edges: Seq<Edge>, i: int, parent: int)
    requires
        0 <= i < edges.len(),
    ensures
        has_stray_move(edges.subrange(0, i + 1), parent) == (has_stray_move(
            edges.subrange(0, i),
            parent,
        ) || (edges[i].kind == RelationType::Move && edges[i].source != parent)),
{
    let shorter = edges.subrange(0, i);
    let longer = edges.subrange(0, i + 1);
    if has_stray_move(shorter, parent) {
        let k = choose|k: int|
            0 <= k < shorter.len() && (#[trigger] shorter[k]).kind == RelationType::Move
                && shorter[k].source != parent;
        assert(longer[k].kind == RelationType::Move && longer[k].source != parent);
    }
    if edges[i].kind == RelationType::Move && edges[i].source != parent {
        assert(longer[i].kind == RelationType::Move && longer[i].source != parent);
    }
    if has_stray_move(longer, parent) {
        let k = choose|k: int|
            0 <= k < longer.len() && (#[trigger] longer[k]).kind == RelationType::Move
                && longer[k].source != parent;
        if k < i {
            assert(shorter[k].kind == RelationType::Move && shorter[k].source != parent);
        }
    }
}

/// The function that leads an `Unblock` edge from the child on from the
/// parent's unblocking parent, or as a `Socket` edge from its socket parent.
pub open spec fn rewire_from(unblocker: Option<int>, socket: Option<int>) -> spec_fn(Edge) -> Edge {
    match (unblocker, socket) {
        (Some(source), _) => rewire(source, RelationType::Unblock),
        (None, Some(source)) => rewire(source, RelationType::Socket),
        (None, None) => rewire(0, RelationType::Unblock),
    }
}

/// Reads the edges from `child`: which of them go, and which edges take
/// the place of its `Unblock` edges. Returns the indices of those that go.
fn scan_child_out(
    graph: &ActionGraph,
    parent: usize,
    child: usize,
    unblocker: Option<usize>,
    socket: Option<usize>,
    addable: &mut Vec<NewEdge>,
) -> (result: Result<Vec<usize>, OptimizeError>)
    requires
        graph.wf(),
        unblocker matches Some(node) ==> graph.nodes().contains_key(node as int),
        socket matches Some(node) ==> graph.nodes().contains_key(node as int),
        joins_nodes(*graph, old(addable)@),
    ensures
        joins_nodes(*graph, final(addable)@),
        match result {
            Ok(removable) => {
                let drop_unblock = unblocker is Some || socket is Some;
                &&& !(unblocker is Some && socket is Some && has_kind(
                    outgoing(graph@.edges, child as int),
                    RelationType::Unblock,
                ))
                &&& planned(final(addable)@) == planned(old(addable)@) + (if drop_unblock {
                    outgoing(graph@.edges, child as int).filter(
                        of_kind(RelationType::Unblock),
                    ).map_values(rewire_from(opt_int(unblocker), opt_int(socket)))
                } else {
                    Seq::empty()
                })
                &&& as_ints(removable@) == graph.tagged().filter(
                    at_node(child as int, Direction::Outgoing),
                ).filter(dropped(drop_unblock)).map_values(raw_id())
            },
            Err(error) => unblocker is Some && socket is Some && has_kind(
                outgoing(graph@.edges, child as int),
                RelationType::Unblock,
            ) && error == (OptimizeError::BothParents { parent }),
        },
{
    let mut removable: Vec<usize> = Vec::new();
    let ghost passed_on = planned(addable@);
    let drop_unblock = unblocker.is_some() || socket.is_some();
    let child_out = graph.outgoing(child);
    let ghost cout = edges_of(child_out@);
    let ghost raw_cout = raw_edges(child_out@);
    let ghost rewire_with = rewire_from(opt_int(unblocker), opt_int(socket));
    let mut i: usize = 0;
    proof {
        assert(cout.subrange(0, 0) =~= Seq::<Edge>::empty());
        assert(raw_cout.subrange(0, 0) =~= Seq::<RawEdge>::empty());
        lemma_filter_all(cout.subrange(0, 0), of_kind(RelationType::Unblock));
        lemma_filter_all(raw_cout.subrange(0, 0), dropped(drop_unblock));
        assert(as_ints(removable@) =~= raw_cout.subrange(0, 0).filter(
            dropped(drop_unblock),
        ).map_values(raw_id()));
        assert(planned(addable@) =~= passed_on + (if drop_unblock {
            cout.subrange(0, 0).filter(of_kind(RelationType::Unblock)).map_values(rewire_with)
        } else {
            Seq::empty()
        }));
    }
    while i < child_out.len()
        invariant
            i <= child_out@.len(),
            graph.wf(),
            cout == edges_of(child_out@),
            cout == outgoing(graph@.edges, child as int),
            raw_cout == raw_edges(child_out@),
            drop_unblock == (unblocker is Some || socket is Some),
            rewire_with == rewire_from(opt_int(unblocker), opt_int(socket)),
            unblocker matches Some(node) ==> graph.nodes().contains_key(node as int),
            socket matches Some(node) ==> graph.nodes().contains_key(node as int),
            forall|k: int|
                0 <= k < child_out@.len() ==> graph.nodes().contains_key(
                    (#[trigger] child_out@[k]).target as int,
                ),
            unblocker is Some && socket is Some ==> !has_kind(
                cout.subrange(0, i as int),
                RelationType::Unblock,
            ),
            planned(addable@) == passed_on + (if drop_unblock {
                cout.subrange(0, i as int).filter(of_kind(RelationType::Unblock)).map_values(
                    rewire_with,
                )
            } else {
                Seq::empty()
            }),
            as_ints(removable@) == raw_cout.subrange(0, i as int).filter(
                dropped(drop_unblock),
            ).map_values(raw_id()),
            joins_nodes(*graph, addable@),
        decreases child_out@.len() - i,
    {
        let edge = child_out[i];
        let ghost unblocked = cout.subrange(0, i as int).filter(of_kind(RelationType::Unblock));
        let ghost gone = raw_cout.subrange(0, i as int).filter(dropped(drop_unblock));
        proof {
            assert(cout[i as int] == strip(edge.raw()));
            assert(raw_cout[i as int] == edge.raw());
            lemma_has_kind_step(cout, i as int, RelationType::Unblock);
            lemma_filter_step(cout, i as int, of_kind(RelationType::Unblock));
            lemma_filter_step(raw_cout, i as int, dropped(drop_unblock));
        }
        match edge.kind {
            RelationType::Goal | RelationType::Move | RelationType::Socket => {},
            RelationType::Clear => {
                removable.push(edge.id);
                assert(as_ints(removable@) =~= gone.map_values(raw_id()).push(edge.id as int));
                assert(gone.push(raw_cout[i as int]).map_values(raw_id()) =~= gone.map_values(
                    raw_id(),
                ).push(edge.id as int));
            },
            RelationType::Unblock => {
                if unblocker.is_some() && socket.is_some() {
                    proof {
                        assert(cout[i as int].kind == RelationType::Unblock);
                    }
                    return Err(OptimizeError::BothParents { parent });
                }
                let ghost before = planned(addable@);
                if let Some(parent_unblocker) = unblocker {
                    addable.push(
                        NewEdge {
                            source: parent_unblocker,
                            target: edge.target,
                            kind: RelationType::Unblock,
                        },
                    );
                    removable.push(edge.id);
                }
                if let Some(parent_socket) = socket {
                    addable.push(
                        NewEdge {
                            source: parent_socket,
                            target: edge.target,
                            kind: RelationType::Socket,
                        },
                    );
                    removable.push(edge.id);
                }
                proof {
                    if drop_unblock {
                        assert(planned(addable@) =~= before.push(rewire_with(cout[i as int])));
                        assert(unblocked.push(cout[i as int]).map_values(rewire_with)
                            =~= unblocked.map_values(rewire_with).push(
                            rewire_with(cout[i as int]),
                        ));
                        assert(planned(addable@) =~= passed_on + unblocked.push(
                            cout[i as int],
                        ).map_values(rewire_with));
                        assert(as_ints(removable@) =~= gone.map_values(raw_id()).push(
                            edge.id as int,
                        ));
                        assert(gone.push(raw_cout[i as int]).map_values(raw_id())
                            =~= gone.map_values(raw_id()).push(edge.id as int));
                    }
                }
            },
        }
        i = i + 1;
    }
    proof {
        assert(cout.subrange(0, cout.len() as int) =~= cout);
        assert(raw_cout.subrange(0, raw_cout.len() as int) =~= raw_cout);
    }
    Ok(removable)
}

/// Adds the edges `addable`, takes out the edges with the indices
/// `removable`, which are those from `child` of a kind that a merge
/// drops, and takes out the node `parent`.
fn apply_merge(
    graph: &mut ActionGraph,
    parent: usize,
    child: usize,
    addable: &Vec<NewEdge>,
    removable: &Vec<usize>,
    drop_unblock: bool,
)
    requires
        old(graph).wf(),
        joins_nodes(*old(graph), addable@),
        old(graph).tagged().len() + addable@.len() <= u32::MAX,
        as_ints(removable@) == old(graph).tagged().filter(
            at_node(child as int, Direction::Outgoing),
        ).filter(dropped(drop_unblock)).map_values(raw_id()),
    ensures
        final(graph).wf(),
        final(graph).slots() == old(graph).slots(),
        final(graph).nodes() == old(graph).nodes().remove(parent as int),
        final(graph)@.edges == (planned(addable@).reverse() + old(graph)@.edges.filter(
            survives(child as int, drop_unblock),
        )).filter(avoids(parent as int)),
{
    let ghost old_tagged = graph.tagged();
    let fresh = graph.add_edges(addable);
    graph.remove_edges(removable);
    proof {
        let ids = as_ints(removable@);
        let keep = not_among(ids);
        let stay = survives(child as int, drop_unblock);
        let raw_stay = |e: RawEdge| stay(strip(e));
        let from_child = old_tagged.filter(at_node(child as int, Direction::Outgoing));
        lemma_removed_ids(old_tagged, child as int, drop_unblock, ids);
        lemma_filter_concat(fresh@, old_tagged, keep);
        assert forall|k: int| 0 <= k < fresh@.len() implies keep(#[trigger] fresh@[k]) by {
            if ids.contains(fresh@[k].0) {
                let m = choose|m: int| 0 <= m < ids.len() && ids[m] == fresh@[k].0;
                let gone = from_child.filter(dropped(drop_unblock));
                assert(gone.contains(gone[m]));
                lemma_filter_member(from_child, dropped(drop_unblock), gone[m]);
                lemma_filter_member(
                    old_tagged,
                    at_node(child as int, Direction::Outgoing),
                    gone[m],
                );
                let j = choose|j: int| 0 <= j < old_tagged.len() && old_tagged[j] == gone[m];
                assert(fresh@[k].0 != old_tagged[j].0);
            }
        }
        lemma_filter_all(fresh@, keep);
        assert forall|k: int| 0 <= k < old_tagged.len() implies keep(#[trigger] old_tagged[k])
            == raw_stay(old_tagged[k]) by {
        }
        lemma_filter_same(old_tagged, keep, raw_stay);
        lemma_filter_map(old_tagged, stripper(), stay, raw_stay);
        assert(graph@.edges =~= strip_all(fresh@) + strip_all(old_tagged.filter(raw_stay)));
    }
    graph.remove_node(parent);
}

/// Hands the edges of `parent` over to `child` and takes `parent` out of
/// the graph, unless the edges forbid it; then the graph stays as it is.
pub fn merge_edges(graph: &mut ActionGraph, parent: usize, child: usize) -> (result: Result<
    (),
    OptimizeError,
>)
    requires
        old(graph).wf(),
    ensures
        final(graph).wf(),
        final(graph).slots() == old(graph).slots(),
        match spec_merge_edges(old(graph)@, parent, child) {
            Ok(merged) => result is Ok && final(graph)@ == merged,
            Err(error) => result == Err::<(), OptimizeError>(error) && final(graph)@ == old(graph)@
                && final(graph).tagged() == old(graph).tagged(),
        },
{
    if graph.action(parent).is_none() {
        return Err(OptimizeError::MissingNode { node: parent });
    }
    let child_action = match graph.action(child) {
        Some(action) => action,
        None => {
            return Err(OptimizeError::MissingNode { node: child });
        },
    };
    let found = match scan_parent_in(graph, parent, child) {
        Ok(found) => found,
        Err(error) => {
            return Err(error);
        },
    };
    let mut addable = found.addable;
    match scan_parent_out(graph, parent, child, &mut addable) {
        Ok(()) => {},
        Err(error) => {
            return Err(error);
        },
    }
    if get_all_cards(&child_action).len() == 1 {
        let (stray, clear) = scan_child_in(graph, parent, child);
        if stray {
            return Err(OptimizeError::SecondMoveParent { child });
        }
        if clear {
            return Err(OptimizeError::UnexplainedClear { child });
        }
    }
    let removable = match scan_child_out(
        graph,
        parent,
        child,
        found.unblocker,
        found.socket,
        &mut addable,
    ) {
        Ok(removable) => removable,
        Err(error) => {
            return Err(error);
        },
    };
    proof {
        assert(planned(addable@) =~= spec_merge_additions(
            graph@,
            parent as int,
            child as int,
        ));
    }
    if addable.len() > u32::MAX as usize || graph.edge_count() > (u32::MAX as usize)
        - addable.len() {
        return Err(OptimizeError::TooLarge);
    }
    apply_merge(
        graph,
        parent,
        child,
        &addable,
        &removable,
        found.unblocker.is_some() || found.socket.is_some(),
    );
    Ok(())
}

/// The graph with the action of a node replaced.
pub open spec fn with_action(graph: GraphView, node: int, action: All) -> GraphView {
    GraphView { nodes: graph.nodes.insert(node, action), edges: graph.edges }
}

/// What an attempt to merge `parent` into `child` leaves: the graph, and
/// whether the two were merged; or what ends the optimization.
pub open spec fn spec_try_merge(graph: GraphView, parent: usize, child: usize) -> Result<
    (GraphView, bool),
    OptimizeError,
> {
    if !graph.nodes.contains_key(child as int) {
        Err(OptimizeError::MissingNode { node: child })
    } else if !graph.nodes.contains_key(parent as int) {
        Err(OptimizeError::MissingNode { node: parent })
    } else {
        match spec_merge_actions(graph.nodes[child as int], graph.nodes[parent as int]) {
            Err(refusal) => if refusal.spec_is_fatal() {
                Err(refusal.spec_error())
            } else {
                Ok((graph, false))
            },
            Ok(action) => match spec_merge_edges(
                with_action(graph, child as int, action),
                parent,
                child,
            ) {
                Ok(merged) => Ok((merged, true)),
                Err(error) => Err(error),
            },
        }
    }
}

/// The graph that an attempt to merge leaves when it ends the
/// optimization: the child holds the merged action already where the
/// actions could be merged and the edges forbade it.
pub open spec fn spec_try_merge_left(graph: GraphView, parent: usize, child: usize) -> GraphView {
    if graph.nodes.contains_key(child as int) && graph.nodes.contains_key(parent as int) {
        match spec_merge_actions(graph.nodes[child as int], graph.nodes[parent as int]) {
            Ok(action) => with_action(graph, child as int, action),
            Err(_) => graph,
        }
    } else {
        graph
    }
}

/// Replaces `child` by the action that does what `parent` and `child` do,
/// and takes `parent` out of the graph. Returns whether it did; where the
/// actions cannot be merged, the graph stays as it is.
pub fn try_merge(graph: &mut ActionGraph, parent: usize, child: usize) -> (result: Result<
    bool,
    OptimizeError,
>)
    requires
        old(graph).wf(),
    ensures
        final(graph).wf(),
        final(graph).slots() == old(graph).slots(),
        final(graph).nodes().dom().subset_of(old(graph).nodes().dom()),
        match spec_try_merge(old(graph)@, parent, child) {
            Ok((merged, done)) => result == Ok::<bool, OptimizeError>(done) && final(graph)@
                == merged,
            Err(error) => result == Err::<bool, OptimizeError>(error) && final(graph)@
                == spec_try_merge_left(old(graph)@, parent, child),
        },
{
    let child_action = match graph.action(child) {
        Some(action) => action,
        None => {
            return Err(OptimizeError::MissingNode { node: child });
        },
    };
    let parent_action = match graph.action(parent) {
        Some(action) => action,
        None => {
            return Err(OptimizeError::MissingNode { node: parent });
        },
    };
    match merge_actions(&child_action, &parent_action) {
        Ok(new_action) => {
            graph.set_action(child, new_action);
            assert(graph@ == with_action(old(graph)@, child as int, new_action));
            assert(graph.nodes().dom() =~= old(graph).nodes().dom());
            match merge_edges(graph, parent, child) {
                Ok(()) => Ok(true),
                Err(error) => Err(error),
            }
        },
        Err(refusal) => {
            if refusal.is_fatal() {
                Err(refusal.error())
            } else {
                Ok(false)
            }
        },
    }
}

/// The edges of the kind `kind` among those which the graph handed out.
pub fn select_kind(refs: &Vec<EdgeRef>, kind: RelationType) -> (result: Vec<EdgeRef>)
    ensures
        edges_of(result@) == edges_of(refs@).filter(of_kind(kind)),
        forall|i: int| 0 <= i < result@.len() ==> refs@.contains(#[trigger] result@[i]),
{
    let mut result: Vec<EdgeRef> = Vec::new();
    let ghost all = edges_of(refs@);
    let mut i: usize = 0;
    proof {
        assert(all.subrange(0, 0) =~= Seq::<Edge>::empty());
        lemma_filter_all(all.subrange(0, 0), of_kind(kind));
        assert(edges_of(result@) =~= all.subrange(0, 0).filter(of_kind(kind)));
    }
    while i < refs.len()
        invariant
            i <= refs@.len(),
            all == edges_of(refs@),
            edges_of(result@) == all.subrange(0, i as int).filter(of_kind(kind)),
            forall|k: int| 0 <= k < result@.len() ==> refs@.contains(#[trigger] result@[k]),
        decreases refs@.len() - i,
    {
        let edge = refs[i];
        proof {
            assert(all[i as int] == strip(edge.raw()));
            lemma_filter_step(all, i as int, of_kind(kind));
        }
        if edge.kind == kind {
            let ghost before = edges_of(result@);
            result.push(edge);
            assert(edges_of(result@) =~= before.push(all[i as int]));
            assert(refs@.contains(refs@[i as int]));
        }
        i = i + 1;
    }
    assert(all.subrange(0, all.len() as int) =~= all);
    result
}

/// The graph with an edge of the kind `kind` from the one node that has
/// such an edge to `node` to the one node that has such an edge from it;
/// the graph as it is where there is not exactly one of each.
pub open spec fn spec_spliced(graph: GraphView, node: int, kind: RelationType) -> GraphView {
    let before = incoming(graph.edges, node).filter(of_kind(kind));
    let after = outgoing(graph.edges, node).filter(of_kind(kind));
    if before.len() == 1 && after.len() == 1 {
        GraphView {
            nodes: graph.nodes,
            edges: seq![Edge { source: before[0].source, target: after[0].target, kind }]
                + graph.edges,
        }
    } else {
        graph
    }
}

/// The test for an edge of a kind that a node without effect should not have.
pub open spec fn unexpected() -> spec_fn(Edge) -> bool {
    |e: Edge| e.kind != RelationType::Move && e.kind != RelationType::Unblock
}

/// The graph with `Move` and `Unblock` edges led past the node `node`.
pub open spec fn spec_bypassed(graph: GraphView, node: int) -> GraphView {
    spec_spliced(spec_spliced(graph, node, RelationType::Move), node, RelationType::Unblock)
}

/// The edges at `node` that are neither `Move` nor `Unblock` edges once
/// those have been led past it: first those into the node, then those from it.
pub open spec fn spec_weird_edges(graph: GraphView, node: int) -> Seq<Edge> {
    let bypassed = spec_bypassed(graph, node);
    incoming(bypassed.edges, node).filter(unexpected()) + outgoing(bypassed.edges, node).filter(
        unexpected(),
    )
}

/// The graph without the node `node`, its `Move` and `Unblock` edges led
/// past it; no graph where there is no index left for such an edge.
pub open spec fn spec_delete_null_node(graph: GraphView, node: int) -> Result<
    GraphView,
    OptimizeError,
> {
    let first = spec_spliced(graph, node, RelationType::Move);
    let second = spec_spliced(first, node, RelationType::Unblock);
    if (first.edges.len() > graph.edges.len() && graph.edges.len() >= u32::MAX) || (
    second.edges.len() > first.edges.len() && first.edges.len() >= u32::MAX) {
        Err(OptimizeError::TooLarge)
    } else {
        Ok(GraphView { nodes: graph.nodes.remove(node), edges: second.edges.filter(avoids(node)) })
    }
}

fn join_edge(graph: &mut ActionGraph, node: usize, kind: RelationType) -> (result: Result<
    (),
    OptimizeError,
>)
    requires
        old(graph).wf(),
    ensures
        final(graph).wf(),
        final(graph).slots() == old(graph).slots(),
        final(graph).nodes() == old(graph).nodes(),
        match result {
            Ok(()) => final(graph)@ == spec_spliced(old(graph)@, node as int, kind),
            Err(error) => error == OptimizeError::TooLarge && spec_spliced(
                old(graph)@,
                node as int,
                kind,
            ).edges.len() > old(graph)@.edges.len() && old(graph)@.edges.len() >= u32::MAX
                && final(graph)@ == old(graph)@,
        },
{
    let into_node = graph.incoming(node);
    let from_node = graph.outgoing(node);
    let before = select_kind(&into_node, kind);
    let after = select_kind(&from_node, kind);
    if before.len() == 1 && after.len() == 1 {
        let source = before[0].source;
        let target = after[0].target;
        proof {
            assert(edges_of(before@)[0] == strip(before@[0].raw()));
            assert(edges_of(after@)[0] == strip(after@[0].raw()));
            assert(into_node@.contains(before@[0]));
            assert(from_node@.contains(after@[0]));
        }
        if graph.edge_count() >= u32::MAX as usize {
            return Err(OptimizeError::TooLarge);
        }
        graph.add_edge(source, target, kind);
    }
    Ok(())
}

/// Removes an action from the graph which has no impact on the board.
/// Returns the edges at the node that are of a kind which such an action
/// should not have.
pub fn delete_null_node(graph: &mut ActionGraph, null_node: usize) -> (result: Result<
    Vec<EdgeRef>,
    OptimizeError,
>)
    requires
        old(graph).wf(),
    ensures
        final(graph).wf(),
        final(graph).slots() == old(graph).slots(),
        final(graph).nodes().dom().subset_of(old(graph).nodes().dom()),
        match spec_delete_null_node(old(graph)@, null_node as int) {
            Ok(deleted) => {
                &&& result matches Ok(weird)
                &&& edges_of(weird@) == spec_weird_edges(old(graph)@, null_node as int)
                &&& final(graph)@ == deleted
            },
            Err(error) => {
                &&& result matches Err(e)
                &&& e == error
                &&& final(graph)@ == old(graph)@ || final(graph)@ == spec_spliced(
                    old(graph)@,
                    null_node as int,
                    RelationType::Move,
                )
            },
        },
{
    match join_edge(graph, null_node, RelationType::Move) {
        Ok(()) => {},
        Err(error) => {
            return Err(error);
        },
    }
    match join_edge(graph, null_node, RelationType::Unblock) {
        Ok(()) => {},
        Err(error) => {
            return Err(error);
        },
    }
    let into_node = graph.incoming(null_node);
    let from_node = graph.outgoing(null_node);
    let mut weird: Vec<EdgeRef> = Vec::new();
    let ghost first = edges_of(into_node@);
    let ghost second = edges_of(from_node@);
    let mut i: usize = 0;
    proof {
        assert(first.subrange(0, 0) =~= Seq::<Edge>::empty());
        lemma_filter_all(first.subrange(0, 0), unexpected());
        assert(edges_of(weird@) =~= first.subrange(0, 0).filter(unexpected()));
    }
    while i < into_node.len()
        invariant
            i <= into_node@.len(),
            first == edges_of(into_node@),
            edges_of(weird@) == first.subrange(0, i as int).filter(unexpected()),
        decreases into_node@.len() - i,
    {
        let edge = into_node[i];
        proof {
            assert(first[i as int] == strip(edge.raw()));
            lemma_filter_step(first, i as int, unexpected());
        }
        if edge.kind != RelationType::Move && edge.kind != RelationType::Unblock {
            let ghost before = edges_of(weird@);
            weird.push(edge);
            assert(edges_of(weird@) =~= before.push(first[i as int]));
        }
        i = i + 1;
    }
    assert(first.subrange(0, first.len() as int) =~= first);
    let ghost weird_in = edges_of(weird@);
    let mut i: usize = 0;
    proof {
        assert(second.subrange(0, 0) =~= Seq::<Edge>::empty());
        lemma_filter_all(second.subrange(0, 0), unexpected());
        assert(edges_of(weird@) =~= weird_in + second.subrange(0, 0).filter(unexpected()));
    }
    while i < from_node.len()
        invariant
            i <= from_node@.len(),
            second == edges_of(from_node@),
            edges_of(weird@) == weird_in + second.subrange(0, i as int).filter(unexpected()),
        decreases from_node@.len() - i,
    {
        let edge = from_node[i];
        proof {
            assert(second[i as int] == strip(edge.raw()));
            lemma_filter_step(second, i as int, unexpected());
        }
        if edge.kind != RelationType::Move && edge.kind != RelationType::Unblock {
            let ghost before = edges_of(weird@);
            weird.push(edge);
            assert(edges_of(weird@) =~= before.push(second[i as int]));
        }
        i = i + 1;
    }
    assert(second.subrange(0, second.len() as int) =~= second);
    graph.remove_node(null_node);
    Ok(weird)
}

/// The test for a `Move` or `Unblock` edge.
pub open spec fn carrier() -> spec_fn(Edge) -> bool {
    |e: Edge| spec_carries_slot(e.kind)
}

/// The links of the `Move` and `Unblock` edges.
pub open spec fn carrier_links(edges: Seq<Edge>) -> Seq<(int, int)> {
    edge_links(edges.filter(carrier()))
}

/// The actions `nodes` with two bunker slots exchanged in those of `done`.
pub open spec fn flipped_in(nodes: Map<int, All>, done: Seq<int>, parent_slot: u8, child_slot: u8)
    -> Map<int, All> {
    Map::new(
        |node: int| nodes.contains_key(node),
        |node: int|
            if done.contains(node) {
                spec_replace_bunker_slot(nodes[node], parent_slot, child_slot)
            } else {
                nodes[node]
            },
    )
}

/// The actions of a graph after two bunker slots have changed places in
/// every action that `Move` and `Unblock` edges lead to from `start`, the
/// action at `start` among them.
pub open spec fn spec_flipped_nodes(
    graph: GraphView,
    start: int,
    parent_slot: u8,
    child_slot: u8,
) -> Map<int, All> {
    if graph.nodes.contains_key(start) {
        Map::new(
            |node: int| graph.nodes.contains_key(node),
            |node: int|
                if connected(carrier_links(graph.edges), start, node) {
                    spec_replace_bunker_slot(graph.nodes[node], parent_slot, child_slot)
                } else {
                    graph.nodes[node]
                },
        )
    } else {
        graph.nodes
    }
}

/// Exchanges two bunker slots in the action of a node, if the graph has the node.
pub fn try_replace_bunker_slot(
    graph: &mut ActionGraph,
    index: usize,
    parent_slot: u8,
    child_slot: u8,
)
    requires
        old(graph).wf(),
    ensures
        final(graph).wf(),
        final(graph).slots() == old(graph).slots(),
        final(graph).tagged() == old(graph).tagged(),
        final(graph).nodes() == (if old(graph).nodes().contains_key(index as int) {
            old(graph).nodes().insert(
                index as int,
                spec_replace_bunker_slot(
                    old(graph).nodes()[index as int],
                    parent_slot,
                    child_slot,
                ),
            )
        } else {
            old(graph).nodes()
        }),
{
    if let Some(action) = graph.action(index) {
        graph.set_action(index, replace_bunker_slot(action, parent_slot, child_slot));
    }
}

/// Exchanges two bunker slots in every action that `Move` and `Unblock`
/// edges lead to from the node `index`.
pub fn flip_bunker_slots(graph: &mut ActionGraph, index: usize, parent_slot: u8, child_slot: u8)
    requires
        old(graph).wf(),
    ensures
        final(graph).wf(),
        final(graph).slots() == old(graph).slots(),
        final(graph).tagged() == old(graph).tagged(),
        final(graph).nodes() == spec_flipped_nodes(
            old(graph)@,
            index as int,
            parent_slot,
            child_slot,
        ),
{
    if graph.action(index).is_none() {
        return ;
    }
    let reach = graph.slot_reach(index);
    let ghost done = as_ints(reach@);
    let mut i: usize = 0;
    assert(graph.nodes() =~= flipped_in(
        old(graph).nodes(),
        done.subrange(0, 0),
        parent_slot,
        child_slot,
    ));
    while i < reach.len()
        invariant
            i <= reach@.len(),
            graph.wf(),
            graph.slots() == old(graph).slots(),
            graph.tagged() == old(graph).tagged(),
            done == as_ints(reach@),
            reach@.no_duplicates(),
            graph.nodes() == flipped_in(
                old(graph).nodes(),
                done.subrange(0, i as int),
                parent_slot,
                child_slot,
            ),
        decreases reach@.len() - i,
    {
        let node = reach[i];
        let ghost before = done.subrange(0, i as int);
        let ghost after = done.subrange(0, i as int + 1);
        proof {
            assert(after =~= before.push(node as int));
            if before.contains(node as int) {
                let k = choose|k: int| 0 <= k < before.len() && before[k] == node as int;
                assert(reach@[k] == reach@[i as int]);
            }
            assert forall|n: int| after.contains(n) <==> (before.contains(n) || n == node) by {
                if before.contains(n) {
                    let k = choose|k: int| 0 <= k < before.len() && before[k] == n;
                    assert(after[k] == n);
                }
                if n == node {
                    assert(after[i as int] == n);
                }
                if after.contains(n) {
                    let k = choose|k: int| 0 <= k < after.len() && after[k] == n;
                    if k < i {
                        assert(before[k] == n);
                    }
                }
            }
        }
        try_replace_bunker_slot(graph, node, parent_slot, child_slot);
        assert(graph.nodes() =~= flipped_in(old(graph).nodes(), after, parent_slot, child_slot));
        i = i + 1;
    }
    proof {
        assert(done.subrange(0, done.len() as int) =~= done);
        lemma_carrier_links(graph.tagged());
        assert(graph.nodes() =~= spec_flipped_nodes(
            old(graph)@,
            index as int,
            parent_slot,
            child_slot,
        ));
    }
}

/// The links of the `Move` and `Unblock` edges do not depend on the
/// indices of the edges.
pub proof fn lemma_carrier_links(tagged: Seq<RawEdge>)
    ensures
        slot_links(tagged) == carrier_links(strip_all(tagged)),
{
    lemma_filter_map(tagged, stripper(), carrier(), slot_carrier());
    lemma_links(tagged.filter(slot_carrier()));
}

/// Whether a parent takes a card out of the bunker that its child puts
/// back there: the two do nothing but exchange two bunker slots.
pub open spec fn spec_is_bunker_loop(parent: All, child: All) -> bool {
    parent matches All::Bunkerize(p) && child matches All::Bunkerize(c) && !p.to_bunker
        && c.to_bunker && p.card == c.card
}

/// Whether a child moves the card back from where its parent moved it to
/// where the parent took it.
pub open spec fn spec_is_field_loop(parent: All, child: All) -> bool {
    parent matches All::Move(p) && child matches All::Move(c) && p.spec_source()
        == c.spec_destination() && p.spec_destination() == c.spec_source()
}

/// Whether a parent takes a card out of the bunker that its child puts back there.
pub fn is_bunker_loop(parent: &All, child: &All) -> (result: bool)
    ensures
        result == spec_is_bunker_loop(*parent, *child),
{
    if let All::Bunkerize(parent_action) = parent {
        if let All::Bunkerize(child_action) = child {
            if !parent_action.to_bunker && child_action.to_bunker && parent_action.card
                == child_action.card {
                return true;
            }
        }
    }
    false
}

/// Whether a child moves the card back from where its parent moved it to where the
/// parent took it.
pub fn is_field_loop(parent: &All, child: &All) -> (result: bool)
    ensures
        result == spec_is_field_loop(*parent, *child),
{
    if let All::Move(move_action) = parent {
        if let All::Move(child_move_action) = child {
            return move_action.source() == child_move_action.destination()
                && move_action.destination() == child_move_action.source();
        }
    }
    false
}

/// The nodes from which a `Move` edge leads to `index`, the source of the
/// edge added last first.
pub fn get_parents(graph: &ActionGraph, index: usize) -> (result: Vec<usize>)
    requires
        graph.wf(),
    ensures
        as_ints(result@) == incoming(graph@.edges, index as int).filter(
            of_kind(RelationType::Move),
        ).map_values(source_of()),
        forall|i: int|
            0 <= i < result@.len() ==> graph.nodes().contains_key((#[trigger] result@[i]) as int),
{
    let into_node = graph.incoming(index);
    let movers = select_kind(&into_node, RelationType::Move);
    let mut result: Vec<usize> = Vec::new();
    let mut i: usize = 0;
    while i < movers.len()
        invariant
            i <= movers@.len(),
            as_ints(result@) == edges_of(movers@).subrange(0, i as int).map_values(source_of()),
            forall|k: int|
                0 <= k < movers@.len() ==> graph.nodes().contains_key(
                    (#[trigger] movers@[k]).source as int,
                ),
            forall|k: int|
                0 <= k < result@.len() ==> graph.nodes().contains_key(
                    (#[trigger] result@[k]) as int,
                ),
        decreases movers@.len() - i,
    {
        let ghost before = as_ints(result@);
        result.push(movers[i].source);
        proof {
            assert(edges_of(movers@)[i as int] == strip(movers@[i as int].raw()));
            assert(as_ints(result@) =~= before.push(movers@[i as int].source as int));
            assert(edges_of(movers@).subrange(0, i as int + 1).map_values(source_of())
                =~= edges_of(movers@).subrange(0, i as int).map_values(source_of()).push(
                movers@[i as int].source as int,
            ));
        }
        i = i + 1;
    }
    assert(edges_of(movers@).subrange(0, movers@.len() as int) =~= edges_of(movers@));
    result
}

/// The nodes to which a `Socket` edge leads from `index`, the target of
/// the edge added last first.
pub fn socket_for(graph: &ActionGraph, index: usize) -> (result: Vec<usize>)
    requires
        graph.wf(),
    ensures
        as_ints(result@) == outgoing(graph@.edges, index as int).filter(
            of_kind(RelationType::Socket),
        ).map_values(target_of()),
{
    let from_node = graph.outgoing(index);
    let sockets = select_kind(&from_node, RelationType::Socket);
    let mut result: Vec<usize> = Vec::new();
    let mut i: usize = 0;
    while i < sockets.len()
        invariant
            i <= sockets@.len(),
            as_ints(result@) == edges_of(sockets@).subrange(0, i as int).map_values(target_of()),
        decreases sockets@.len() - i,
    {
        let ghost before = as_ints(result@);
        result.push(sockets[i].target);
        proof {
            assert(edges_of(sockets@)[i as int] == strip(sockets@[i as int].raw()));
            assert(as_ints(result@) =~= before.push(sockets@[i as int].target as int));
            assert(edges_of(sockets@).subrange(0, i as int + 1).map_values(target_of())
                =~= edges_of(sockets@).subrange(0, i as int).map_values(target_of()).push(
                sockets@[i as int].target as int,
            ));
        }
        i = i + 1;
    }
    assert(edges_of(sockets@).subrange(0, sockets@.len() as int) =~= edges_of(sockets@));
    result
}

/// The source of an edge.
pub open spec fn source_of() -> spec_fn(Edge) -> int {
    |e: Edge| e.source
}

/// The target of an edge.
pub open spec fn target_of() -> spec_fn(Edge) -> int {
    |e: Edge| e.target
}

/// What is done with a parent and its child.
#[derive(Debug, Clone, Copy, PartialEq, Eq, Structural)]
pub enum CandidateKind {
    /// The two become one action.
    Mergeable,
    /// The two move a card to and fro: both leave the graph.
    FieldLoop,
    /// The two take a card from one bunker slot into another: both leave
    /// the graph, and the slots change places in what follows.
    BunkerLoop,
}

/// What is done with a parent and its child that are candidates.
pub open spec fn spec_classify(parent: All, child: All) -> CandidateKind {
    if spec_is_bunker_loop(parent, child) {
        CandidateKind::BunkerLoop
    } else if spec_is_field_loop(parent, child) {
        CandidateKind::FieldLoop
    } else {
        CandidateKind::Mergeable
    }
}

/// The test for an edge that leads elsewhere than from `from` straight to `to`.
pub open spec fn bypasses(from: int, to: int) -> spec_fn(Edge) -> bool {
    |e: Edge| !(e.source == from && e.target == to)
}

/// Whether edges other than those from `from` straight to `to` lead from
/// `from` to `to`.
pub open spec fn has_other_path(edges: Seq<Edge>, from: int, to: int) -> bool {
    connected(edge_links(edges.filter(bypasses(from, to))), from, to)
}

/// Whether one of `targets` is another node than `node`.
pub open spec fn names_other(targets: Seq<int>, node: int) -> bool {
    exists|i: int| 0 <= i < targets.len() && #[trigger] targets[i] != node
}

/// The nodes for which `parent` puts down the card on which they put their own.
pub open spec fn socket_targets(graph: GraphView, parent: int) -> Seq<int> {
    outgoing(graph.edges, parent).filter(of_kind(RelationType::Socket)).map_values(target_of())
}

/// The parent with which `child` is a candidate, given the nodes that are
/// taken already: the only source of a `Move` edge into `child`, where
/// neither node is taken, both actions touch one card, the parent provides
/// a socket for no other node, and no other path leads from it to `child`.
pub open spec fn spec_candidate_parent(graph: GraphView, used: Set<usize>, child: usize)
    -> Option<usize> {
    let movers = incoming(graph.edges, child as int).filter(of_kind(RelationType::Move));
    if used.contains(child) || movers.len() != 1 {
        None
    } else {
        let parent = movers[0].source;
        if used.contains(parent as usize) || !graph.nodes.contains_key(parent)
            || !graph.nodes.contains_key(child as int) || spec_all_cards(graph.nodes[parent]).len()
            > 1 || spec_all_cards(graph.nodes[child as int]).len() > 1 || names_other(
            socket_targets(graph, parent),
            child as int,
        ) || has_other_path(graph.edges, parent, child as int) {
            None
        } else {
            Some(parent as usize)
        }
    }
}

/// The pairs of parent and child that one pass works on, by what is done
/// with them, and the nodes that are part of a pair.
pub struct Selection {
    pub mergeable: Seq<(usize, usize)>,
    pub loops: Seq<(usize, usize)>,
    pub bunker_loops: Seq<(usize, usize)>,
    pub used: Set<usize>,
}

/// The selection with the pair of `parent` and `child` added to it.
pub open spec fn spec_select_pair(
    selection: Selection,
    kind: CandidateKind,
    parent: usize,
    child: usize,
) -> Selection {
    Selection {
        mergeable: if kind == CandidateKind::Mergeable {
            selection.mergeable.push((parent, child))
        } else {
            selection.mergeable
        },
        loops: if kind == CandidateKind::FieldLoop {
            selection.loops.push((parent, child))
        } else {
            selection.loops
        },
        bunker_loops: if kind == CandidateKind::BunkerLoop {
            selection.bunker_loops.push((parent, child))
        } else {
            selection.bunker_loops
        },
        used: selection.used.insert(parent).insert(child),
    }
}

/// The pairs among the nodes `order`, each node taken in its turn as a child.
pub open spec fn spec_select(graph: GraphView, order: Seq<usize>) -> Selection
    decreases order.len(),
{
    if order.len() == 0 {
        Selection {
            mergeable: Seq::empty(),
            loops: Seq::empty(),
            bunker_loops: Seq::empty(),
            used: Set::empty(),
        }
    } else {
        let before = spec_select(graph, order.drop_last());
        let child = order.last();
        match spec_candidate_parent(graph, before.used, child) {
            None => before,
            Some(parent) => spec_select_pair(
                before,
                spec_classify(graph.nodes[parent as int], graph.nodes[child as int]),
                parent,
                child,
            ),
        }
    }
}

/// Whether `order` holds the nodes `nodes`, each once, in ascending order.
pub open spec fn is_node_order(nodes: Set<int>, order: Seq<usize>) -> bool {
    &&& forall|i: int, j: int| 0 <= i < j < order.len() ==> order[i] < order[j]
    &&& forall|i: int| 0 <= i < order.len() ==> nodes.contains((#[trigger] order[i]) as int)
    &&& forall|node: int|
        nodes.contains(node) ==> exists|i: int| 0 <= i < order.len() && #[trigger] order[i] == node
}

/// The nodes in ascending order.
pub open spec fn node_order(nodes: Set<int>) -> Seq<usize> {
    choose|order: Seq<usize>| is_node_order(nodes, order)
}

/// There is one ascending order of a set of nodes at most.
pub proof fn lemma_node_order_unique(nodes: Set<int>, first: Seq<usize>, second: Seq<usize>)
    requires
        is_node_order(nodes, first),
        is_node_order(nodes, second),
    ensures
        first == second,
    decreases first.len(),
{
    if first.len() == 0 {
        if second.len() > 0 {
            assert(nodes.contains(second[0] as int));
        }
        assert(first =~= second);
    } else {
        let top = first.last();
        assert(nodes.contains(first[first.len() - 1] as int));
        let at = choose|i: int| 0 <= i < second.len() && #[trigger] second[i] == top as int;
        assert(nodes.contains(second[second.len() - 1] as int));
        let back = choose|i: int|
            0 <= i < first.len() && #[trigger] first[i] == second[second.len() - 1] as int;
        assert(at == second.len() - 1);
        let rest = nodes.remove(top as int);
        assert(is_node_order(rest, first.drop_last())) by {
            assert forall|node: int| rest.contains(node) implies exists|i: int|
                0 <= i < first.drop_last().len() && #[trigger] first.drop_last()[i] == node by {
                let i = choose|i: int| 0 <= i < first.len() && #[trigger] first[i] == node;
                assert(first.drop_last()[i] == node);
            }
        }
        assert(is_node_order(rest, second.drop_last())) by {
            assert forall|node: int| rest.contains(node) implies exists|i: int|
                0 <= i < second.drop_last().len() && #[trigger] second.drop_last()[i] == node by {
                let i = choose|i: int| 0 <= i < second.len() && #[trigger] second[i] == node;
                assert(second.drop_last()[i] == node);
            }
        }
        lemma_node_order_unique(rest, first.drop_last(), second.drop_last());
        assert(first =~= first.drop_last().push(top));
        assert(second =~= second.drop_last().push(top));
    }
}

/// The graph after each pair has been tried for a merge, one after the other.
pub open spec fn spec_apply_merges(graph: GraphView, pairs: Seq<(usize, usize)>) -> Result<
    GraphView,
    OptimizeError,
>
    decreases pairs.len(),
{
    if pairs.len() == 0 {
        Ok(graph)
    } else {
        match spec_try_merge(graph, pairs[0].0, pairs[0].1) {
            Ok((next, _)) => spec_apply_merges(next, pairs.drop_first()),
            Err(error) => Err(error),
        }
    }
}

/// The graph without a parent and its child that undo each other.
pub open spec fn spec_delete_loop(graph: GraphView, parent: usize, child: usize) -> Result<
    GraphView,
    OptimizeError,
> {
    match spec_merge_edges(graph, parent, child) {
        Ok(merged) => spec_delete_null_node(merged, child as int),
        Err(error) => Err(error),
    }
}

/// The graph after each pair has been taken out, one after the other.
pub open spec fn spec_apply_loops(graph: GraphView, pairs: Seq<(usize, usize)>) -> Result<
    GraphView,
    OptimizeError,
>
    decreases pairs.len(),
{
    if pairs.len() == 0 {
        Ok(graph)
    } else {
        match spec_delete_loop(graph, pairs[0].0, pairs[0].1) {
            Ok(next) => spec_apply_loops(next, pairs.drop_first()),
            Err(error) => Err(error),
        }
    }
}

/// The graph without a parent and its child that take a card from one
/// bunker slot into another, the two slots exchanged in what follows.
pub open spec fn spec_delete_bunker_loop(graph: GraphView, parent: usize, child: usize) -> Result<
    GraphView,
    OptimizeError,
> {
    if !graph.nodes.contains_key(parent as int) {
        Err(OptimizeError::MissingNode { node: parent })
    } else if !graph.nodes.contains_key(child as int) {
        Err(OptimizeError::MissingNode { node: child })
    } else {
        match (graph.nodes[parent as int], graph.nodes[child as int]) {
            (All::Bunkerize(p), All::Bunkerize(c)) => if !p.to_bunker && c.to_bunker {
                spec_delete_loop(
                    GraphView {
                        nodes: spec_flipped_nodes(
                            graph,
                            parent as int,
                            p.bunker_slot_index,
                            c.bunker_slot_index,
                        ),
                        edges: graph.edges,
                    },
                    parent,
                    child,
                )
            } else {
                Err(OptimizeError::NotBunkerLoop { parent, child })
            },
            _ => Err(OptimizeError::NotBunkerLoop { parent, child }),
        }
    }
}

/// The graph after each bunker loop has been taken out, one after the other.
pub open spec fn spec_apply_bunker_loops(graph: GraphView, pairs: Seq<(usize, usize)>) -> Result<
    GraphView,
    OptimizeError,
>
    decreases pairs.len(),
{
    if pairs.len() == 0 {
        Ok(graph)
    } else {
        match spec_delete_bunker_loop(graph, pairs[0].0, pairs[0].1) {
            Ok(next) => spec_apply_bunker_loops(next, pairs.drop_first()),
            Err(error) => Err(error),
        }
    }
}

/// The graph after one pass: the pairs are chosen on the graph as it is,
/// then the mergeable pairs are merged, then the field loops and the
/// bunker loops are taken out.
#[verifier::opaque]
pub open spec fn spec_merge_step(graph: GraphView) -> Result<GraphView, OptimizeError> {
    let selection = spec_select(graph, node_order(graph.nodes.dom()));
    match spec_apply_merges(graph, selection.mergeable) {
        Err(error) => Err(error),
        Ok(merged) => match spec_apply_loops(merged, selection.loops) {
            Err(error) => Err(error),
            Ok(cleaned) => spec_apply_bunker_loops(cleaned, selection.bunker_loops),
        },
    }
}

/// The links that bypass an edge do not depend on the indices of the edges.
pub proof fn lemma_detour_links(tagged: Seq<RawEdge>, from: int, to: int)
    ensures
        detour_links(tagged, from, to) == edge_links(
            strip_all(tagged).filter(bypasses(from, to)),
        ),
{
    lemma_filter_map(tagged, stripper(), bypasses(from, to), detours(from, to));
    lemma_links(tagged.filter(detours(from, to)));
}

fn has_other(targets: &Vec<usize>, node: usize) -> (result: bool)
    ensures
        result == names_other(as_ints(targets@), node as int),
{
    let mut i: usize = 0;
    while i < targets.len()
        invariant
            i <= targets@.len(),
            forall|k: int| 0 <= k < i ==> as_ints(targets@)[k] == node as int,
        decreases targets@.len() - i,
    {
        if targets[i] != node {
            assert(as_ints(targets@)[i as int] != node as int);
            return true;
        }
        i = i + 1;
    }
    false
}

/// The parent with which `index` is a candidate, if there is one, and
/// what is to be done with the two.
pub fn candidate_parent(graph: &ActionGraph, used: &HashSet<usize>, index: usize) -> (result:
    Option<(usize, CandidateKind)>)
    requires
        graph.wf(),
    ensures
        match result {
            Some((parent, kind)) => spec_candidate_parent(graph@, used@, index) == Some(parent)
                && kind == spec_classify(graph@.nodes[parent as int], graph@.nodes[index as int]),
            None => spec_candidate_parent(graph@, used@, index) is None,
        },
{
    broadcast use vstd::std_specs::hash::group_hash_axioms;

    if used.contains(&index) {
        return None;
    }
    let parents = get_parents(graph, index);
    let ghost movers = incoming(graph@.edges, index as int).filter(of_kind(RelationType::Move));
    assert(as_ints(parents@).len() == parents@.len());
    assert(movers.map_values(source_of()).len() == movers.len());
    if parents.len() != 1 {
        return None;
    }
    let parent = parents[0];
    proof {
        assert(as_ints(parents@)[0] == parent as int);
        assert(movers.map_values(source_of())[0] == movers[0].source);
        assert(movers[0].source == parent as int);
    }
    if used.contains(&parent) {
        return None;
    }
    let parent_action = match graph.action(parent) {
        Some(action) => action,
        None => {
            return None;
        },
    };
    let child_action = match graph.action(index) {
        Some(action) => action,
        None => {
            return None;
        },
    };
    if get_all_cards(&parent_action).len() > 1 {
        return None;
    }
    if get_all_cards(&child_action).len() > 1 {
        return None;
    }
    let sockets = socket_for(graph, parent);
    if has_other(&sockets, index) {
        return None;
    }
    proof {
        lemma_detour_links(graph.tagged(), parent as int, index as int);
    }
    if graph.has_detour(parent, index) {
        return None;
    }
    let kind = if is_bunker_loop(&parent_action, &child_action) {
        CandidateKind::BunkerLoop
    } else if is_field_loop(&parent_action, &child_action) {
        CandidateKind::FieldLoop
    } else {
        CandidateKind::Mergeable
    };
    Some((parent, kind))
}

/// The pairs that one pass works on.
pub struct Candidates {
    pub mergeable: Vec<(usize, usize)>,
    pub loop_deletion: Vec<(usize, usize)>,
    pub bunker_loop_deletion: Vec<(usize, usize)>,
}

/// Chooses the pairs of parent and child that one pass works on.
pub fn select_candidates(graph: &ActionGraph) -> (result: Candidates)
    requires
        graph.wf(),
    ensures
        result.mergeable@ == spec_select(graph@, node_order(graph@.nodes.dom())).mergeable,
        result.loop_deletion@ == spec_select(graph@, node_order(graph@.nodes.dom())).loops,
        result.bunker_loop_deletion@ == spec_select(
            graph@,
            node_order(graph@.nodes.dom()),
        ).bunker_loops,
{
    broadcast use vstd::std_specs::hash::group_hash_axioms;

    let indices = graph.node_indices();
    proof {
        assert(is_node_order(graph@.nodes.dom(), indices@));
        lemma_node_order_unique(
            graph@.nodes.dom(),
            indices@,
            node_order(graph@.nodes.dom()),
        );
    }
    let mut used_nodes: HashSet<usize> = HashSet::new();
    let mut mergeable: Vec<(usize, usize)> = Vec::new();
    let mut loop_deletion: Vec<(usize, usize)> = Vec::new();
    let mut bunker_loop_deletion: Vec<(usize, usize)> = Vec::new();
    let mut i: usize = 0;
    assert(indices@.subrange(0, 0) =~= Seq::<usize>::empty());
    assert(used_nodes@ =~= Set::<usize>::empty());
    while i < indices.len()
        invariant
            i <= indices@.len(),
            graph.wf(),
            mergeable@ == spec_select(graph@, indices@.subrange(0, i as int)).mergeable,
            loop_deletion@ == spec_select(graph@, indices@.subrange(0, i as int)).loops,
            bunker_loop_deletion@ == spec_select(
                graph@,
                indices@.subrange(0, i as int),
            ).bunker_loops,
            used_nodes@ == spec_select(graph@, indices@.subrange(0, i as int)).used,
        decreases indices@.len() - i,
    {
        let index = indices[i];
        proof {
            assert(indices@.subrange(0, i as int + 1).drop_last() =~= indices@.subrange(
                0,
                i as int,
            ));
            assert(indices@.subrange(0, i as int + 1).last() == index);
        }
        if let Some((parent, kind)) = candidate_parent(graph, &used_nodes, index) {
            match kind {
                CandidateKind::BunkerLoop => {
                    bunker_loop_deletion.push((parent, index));
                },
                CandidateKind::FieldLoop => {
                    loop_deletion.push((parent, index));
                },
                CandidateKind::Mergeable => {
                    mergeable.push((parent, index));
                },
            }
            used_nodes.insert(parent);
            used_nodes.insert(index);
        }
        i = i + 1;
    }
    assert(indices@.subrange(0, indices@.len() as int) =~= indices@);
    Candidates { mergeable, loop_deletion, bunker_loop_deletion }
}

/// Takes a parent and its child that undo each other out of the graph.
pub fn delete_loop(graph: &mut ActionGraph, parent: usize, child: usize) -> (result: Result<
    (),
    OptimizeError,
>)
    requires
        old(graph).wf(),
    ensures
        final(graph).wf(),
        final(graph).slots() == old(graph).slots(),
        final(graph).nodes().dom().subset_of(old(graph).nodes().dom()),
        match spec_delete_loop(old(graph)@, parent, child) {
            Ok(next) => result is Ok && final(graph)@ == next,
            Err(error) => result == Err::<(), OptimizeError>(error),
        },
{
    match merge_edges(graph, parent, child) {
        Ok(()) => {},
        Err(error) => {
            return Err(error);
        },
    }
    match delete_null_node(graph, child) {
        Ok(_) => Ok(()),
        Err(error) => Err(error),
    }
}

/// Takes a bunker loop out of the graph and exchanges its two bunker slots
/// in what follows.
pub fn delete_bunker_loop(graph: &mut ActionGraph, parent: usize, child: usize) -> (result: Result<
    (),
    OptimizeError,
>)
    requires
        old(graph).wf(),
    ensures
        final(graph).wf(),
        final(graph).slots() == old(graph).slots(),
        final(graph).nodes().dom().subset_of(old(graph).nodes().dom()),
        match spec_delete_bunker_loop(old(graph)@, parent, child) {
            Ok(next) => result is Ok && final(graph)@ == next,
            Err(error) => result == Err::<(), OptimizeError>(error),
        },
{
    let parent_action = match graph.action(parent) {
        Some(action) => action,
        None => {
            return Err(OptimizeError::MissingNode { node: parent });
        },
    };
    let child_action = match graph.action(child) {
        Some(action) => action,
        None => {
            return Err(OptimizeError::MissingNode { node: child });
        },
    };
    let parent_slot = match parent_action {
        All::Bunkerize(Bunkerize { bunker_slot_index, to_bunker, .. }) => {
            if to_bunker {
                return Err(OptimizeError::NotBunkerLoop { parent, child });
            }
            bunker_slot_index
        },
        _ => {
            return Err(OptimizeError::NotBunkerLoop { parent, child });
        },
    };
    let child_slot = match child_action {
        All::Bunkerize(Bunkerize { bunker_slot_index, to_bunker, .. }) => {
            if !to_bunker {
                return Err(OptimizeError::NotBunkerLoop { parent, child });
            }
            bunker_slot_index
        },
        _ => {
            return Err(OptimizeError::NotBunkerLoop { parent, child });
        },
    };
    flip_bunker_slots(graph, parent, parent_slot, child_slot);
    assert(graph.nodes().dom() =~= old(graph).nodes().dom());
    delete_loop(graph, parent, child)
}

/// One pass over the graph: merges each mergeable pair of parent and
/// child, and takes out the pairs that undo each other.
#[verifier::loop_isolation(false)]
pub fn merge_step(graph: ActionGraph) -> (result: Result<ActionGraph, OptimizeError>)
    requires
        graph.wf(),
    ensures
        match spec_merge_step(graph@) {
            Ok(next) => {
                &&& result matches Ok(after)
                &&& after.wf()
                &&& after@ == next
                &&& after.slots() == graph.slots()
                &&& after.nodes().dom().subset_of(graph.nodes().dom())
                &&& after.nodes().len() <= graph.nodes().len()
            },
            Err(error) => result matches Err(e) && e == error,
        },
{
    reveal(spec_merge_step);
    let ghost start = graph;
    let mut graph = graph;
    let candidates = select_candidates(&graph);
    let mut i: usize = 0;
    assert(candidates.mergeable@.subrange(0, candidates.mergeable@.len() as int)
        =~= candidates.mergeable@);
    while i < candidates.mergeable.len()
        invariant
            i <= candidates.mergeable@.len(),
            graph.wf(),
            graph.slots() == start.slots(),
            graph.nodes().dom().subset_of(start.nodes().dom()),
            spec_apply_merges(start@, candidates.mergeable@) == spec_apply_merges(
                graph@,
                candidates.mergeable@.subrange(i as int, candidates.mergeable@.len() as int),
            ),
        decreases candidates.mergeable@.len() - i,
    {
        let (parent, child) = candidates.mergeable[i];
        let ghost rest = candidates.mergeable@.subrange(
            i as int,
            candidates.mergeable@.len() as int,
        );
        proof {
            assert(rest[0] == (parent, child));
            assert(rest.drop_first() =~= candidates.mergeable@.subrange(
                i as int + 1,
                candidates.mergeable@.len() as int,
            ));
        }
        match try_merge(&mut graph, parent, child) {
            Ok(_) => {},
            Err(error) => {
                return Err(error);
            },
        }
        i = i + 1;
    }
    let ghost merged = graph@;
    let mut i: usize = 0;
    assert(candidates.loop_deletion@.subrange(0, candidates.loop_deletion@.len() as int)
        =~= candidates.loop_deletion@);
    while i < candidates.loop_deletion.len()
        invariant
            i <= candidates.loop_deletion@.len(),
            graph.wf(),
            graph.slots() == start.slots(),
            graph.nodes().dom().subset_of(start.nodes().dom()),
            spec_apply_loops(merged, candidates.loop_deletion@) == spec_apply_loops(
                graph@,
                candidates.loop_deletion@.subrange(
                    i as int,
                    candidates.loop_deletion@.len() as int,
                ),
            ),
        decreases candidates.loop_deletion@.len() - i,
    {
        let (parent, child) = candidates.loop_deletion[i];
        let ghost rest = candidates.loop_deletion@.subrange(
            i as int,
            candidates.loop_deletion@.len() as int,
        );
        proof {
            assert(rest[0] == (parent, child));
            assert(rest.drop_first() =~= candidates.loop_deletion@.subrange(
                i as int + 1,
                candidates.loop_deletion@.len() as int,
            ));
        }
        match delete_loop(&mut graph, parent, child) {
            Ok(()) => {},
            Err(error) => {
                return Err(error);
            },
        }
        i = i + 1;
    }
    let ghost cleaned = graph@;
    let mut i: usize = 0;
    assert(candidates.bunker_loop_deletion@.subrange(
        0,
        candidates.bunker_loop_deletion@.len() as int,
    ) =~= candidates.bunker_loop_deletion@);
    while i < candidates.bunker_loop_deletion.len()
        invariant
            i <= candidates.bunker_loop_deletion@.len(),
            graph.wf(),
            graph.slots() == start.slots(),
            graph.nodes().dom().subset_of(start.nodes().dom()),
            spec_apply_bunker_loops(cleaned, candidates.bunker_loop_deletion@)
                == spec_apply_bunker_loops(
                graph@,
                candidates.bunker_loop_deletion@.subrange(
                    i as int,
                    candidates.bunker_loop_deletion@.len() as int,
                ),
            ),
        decreases candidates.bunker_loop_deletion@.len() - i,
    {
        let (parent, child) = candidates.bunker_loop_deletion[i];
        let ghost rest = candidates.bunker_loop_deletion@.subrange(
            i as int,
            candidates.bunker_loop_deletion@.len() as int,
        );
        proof {
            assert(rest[0] == (parent, child));
            assert(rest.drop_first() =~= candidates.bunker_loop_deletion@.subrange(
                i as int + 1,
                candidates.bunker_loop_deletion@.len() as int,
            ));
        }
        match delete_bunker_loop(&mut graph, parent, child) {
            Ok(()) => {},
            Err(error) => {
                return Err(error);
            },
        }
        i = i + 1;
    }
    proof {
        vstd::set_lib::lemma_len_subset(graph.nodes().dom(), start.nodes().dom());
    }
    Ok(graph)
}

/// The graph after pass upon pass, up to the first pass that leaves the
/// number of nodes as it is, and at most `fuel` passes after the first.
pub open spec fn spec_reduce(graph: GraphView, fuel: nat) -> Result<GraphView, OptimizeError>
    decreases fuel,
{
    match spec_merge_step(graph) {
        Err(error) => Err(error),
        Ok(next) => if next.nodes.len() == graph.nodes.len() || fuel == 0 {
            Ok(next)
        } else {
            spec_reduce(next, (fuel - 1) as nat)
        },
    }
}

/// The actions of the graph of `actions` after it has been reduced, in an
/// order that keeps every edge of the reduced graph. A pass takes away a
/// node or is the last, so that as many passes as there are actions are
/// never used up.
pub open spec fn spec_optimize(actions: Seq<All>) -> Result<Seq<All>, OptimizeError> {
    if actions.len() > MAX_ACTIONS {
        Err(OptimizeError::TooLarge)
    } else {
        match spec_reduce(spec_to_graph(actions), actions.len()) {
            Err(error) => Err(error),
            Ok(reduced) => spec_from_graph(reduced),
        }
    }
}

/// A place to correct the bunker slot that a dragon kill blocks. It
/// returns the actions as they are.
pub fn fix_dragonkill_destination(actions: &[All]) -> (result: Vec<All>)
    ensures
        result@ == actions@,
{
    let mut result: Vec<All> = Vec::new();
    let mut i: usize = 0;
    while i < actions.len()
        invariant
            i <= actions@.len(),
            result@ == actions@.subrange(0, i as int),
        decreases actions@.len() - i,
    {
        result.push(actions[i]);
        i = i + 1;
    }
    assert(actions@.subrange(0, actions@.len() as int) =~= actions@);
    result
}

/// A place to correct the order of the goal actions. It returns the
/// actions as they are.
pub fn fix_goal_ordering(actions: &[All]) -> (result: Vec<All>)
    ensures
        result@ == actions@,
{
    fix_dragonkill_destination(actions)
}

/// Rewrites a sequence of actions into one that is no longer: builds the
/// dependency graph, reduces it pass by pass until a pass leaves the
/// number of nodes as it is, and puts what is left in order.
#[must_use]
pub fn optimize(actions: &[All]) -> (result: Result<Vec<All>, OptimizeError>)
    ensures
        (match result {
            Ok(optimized) => Ok(optimized@),
            Err(error) => Err(error),
        }) == spec_optimize(actions@),
        result matches Ok(optimized) ==> optimized@.len() <= actions@.len(),
{
    let mut graph = match to_graph(actions) {
        Ok(graph) => graph,
        Err(error) => {
            return Err(error);
        },
    };
    let ghost built = graph@;
    let mut last_length = graph.node_count();
    let ghost mut fuel: nat = actions@.len() as nat;
    assert(graph.nodes().len() == actions@.len()) by {
        assert(graph.nodes().dom() =~= Set::new(|i: int| 0 <= i < actions@.len()));
        vstd::set_lib::lemma_int_range(0, actions@.len() as int);
        assert(Set::new(|i: int| 0 <= i < actions@.len()) =~= vstd::set_lib::set_int_range(
            0,
            actions@.len() as int,
        ));
    }
    loop
        invariant_except_break
            graph.wf(),
            last_length == graph.nodes().len(),
            last_length <= fuel <= actions@.len(),
            spec_reduce(built, actions@.len() as nat) == spec_reduce(graph@, fuel),
        invariant
            actions@.len() <= MAX_ACTIONS,
            built == spec_to_graph(actions@),
        ensures
            graph.wf(),
            graph.nodes().len() <= actions@.len(),
            spec_reduce(built, actions@.len() as nat) == Ok::<GraphView, OptimizeError>(graph@),
        decreases last_length,
    {
        let ghost before = graph@;
        graph = match merge_step(graph) {
            Ok(next) => next,
            Err(error) => {
                return Err(error);
            },
        };
        if graph.node_count() == last_length {
            break ;
        }
        last_length = graph.node_count();
        proof {
            fuel = (fuel - 1) as nat;
        }
    }
    let optimized_sequence = match from_graph(&graph) {
        Ok(sequence) => sequence,
        Err(error) => {
            return Err(error);
        },
    };
    Ok(fix_goal_ordering(fix_dragonkill_destination(optimized_sequence.as_slice()).as_slice()))
}

} // verus!
