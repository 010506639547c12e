use solver::action_optimization::graph_entity::{
    ActionGraph, OptimizeError, RelationType, MAX_ACTIONS,
};
use solver::action_optimization::optimize::{
    candidate_parent, delete_bunker_loop, delete_null_node, flip_bunker_slots, get_parents,
    merge_actions, merge_edges, select_candidates, socket_for, try_merge, CandidateKind,
    MergeRefusal,
};
use solver::action_optimization::relation::{
    get_clear_parents, get_destination_parent, get_goal_parent, get_move_parents,
    get_socket_parent, get_unblocking_parent,
};
use solver::action_optimization::util::{
    column_range, get_all_bottom_sources, get_all_cards, get_all_destinations, get_all_sources,
    get_all_top_sources, get_destination, get_top_destination, search_parent_tree, top_card,
};
use solver::actions::{All, Bunkerize, DragonKill, Goal, HuaKill, Move};
use solver::board::{
    CardType, CardTypeNoHua, FieldPosition, NumberCard, NumberCardColor, Position, PositionNoGoal,
    SpecialCardType,
};
use std::collections::HashSet;

fn card(suit: NumberCardColor, value: u8) -> NumberCard {
    NumberCard { suit, value }
}

fn goal_from(position: PositionNoGoal, value: u8) -> All {
    All::Goal(Goal {
        card: card(NumberCardColor::Red, value),
        source: position,
        goal_slot_index: 0,
    })
}

fn slide(from: FieldPosition, to: FieldPosition, value: u8) -> All {
    All::Move(Move::new(
        from,
        to,
        &[CardType::Number(card(NumberCardColor::Red, value))],
    ))
}

/// A graph of three nodes without edges.
fn three_nodes() -> ActionGraph {
    let mut graph = ActionGraph::new();
    for column in 0..3 {
        graph.add_node(goal_from(
            PositionNoGoal::Field(FieldPosition::new(column, 0)),
            1,
        ));
    }
    graph
}

#[test]
fn places_of_an_action_are_listed() {
    let stack = [
        CardType::Number(card(NumberCardColor::Red, 5)),
        CardType::Number(card(NumberCardColor::Black, 4)),
        CardType::Number(card(NumberCardColor::Green, 3)),
    ];
    let action = All::Move(Move::new(
        FieldPosition::new(2, 4),
        FieldPosition::new(6, 1),
        &stack,
    ));
    assert_eq!(
        get_all_sources(action),
        vec![
            PositionNoGoal::Field(FieldPosition::new(2, 4)),
            PositionNoGoal::Field(FieldPosition::new(2, 5)),
            PositionNoGoal::Field(FieldPosition::new(2, 6)),
        ]
    );
    assert_eq!(
        get_all_top_sources(&action),
        vec![PositionNoGoal::Field(FieldPosition::new(2, 6))]
    );
    assert_eq!(
        get_all_bottom_sources(&action),
        vec![PositionNoGoal::Field(FieldPosition::new(2, 4))]
    );
    assert_eq!(get_all_cards(&action), stack.to_vec());
    assert_eq!(
        get_destination(&action),
        Some(Position::Field(FieldPosition::new(6, 1)))
    );
    assert_eq!(
        get_top_destination(action),
        Some(Position::Field(FieldPosition::new(6, 3)))
    );
    assert_eq!(
        get_all_destinations(action),
        vec![
            Position::Field(FieldPosition::new(6, 1)),
            Position::Field(FieldPosition::new(6, 2)),
            Position::Field(FieldPosition::new(6, 3)),
        ]
    );
    let kill = All::DragonKill(DragonKill {
        card: SpecialCardType::Bai,
        source: [
            PositionNoGoal::Bunker { slot_index: 0 },
            PositionNoGoal::Field(FieldPosition::new(1, 1)),
            PositionNoGoal::Field(FieldPosition::new(2, 2)),
            PositionNoGoal::Field(FieldPosition::new(3, 3)),
        ],
        destination_slot_index: 0,
    });
    assert_eq!(get_all_sources(kill).len(), 4);
    assert_eq!(get_all_cards(&kill).len(), 4);
    assert_eq!(
        get_destination(&kill),
        Some(Position::Bunker { slot_index: 0 })
    );
    let hua = All::HuaKill(HuaKill {
        field_position: FieldPosition::new(1, 1),
    });
    assert_eq!(get_destination(&hua), None);
    assert_eq!(get_all_destinations(hua), Vec::<Position>::new());
    assert_eq!(get_all_cards(&hua), vec![CardType::Hua]);
    assert_eq!(
        top_card(&FieldPosition::new(3, 4)),
        FieldPosition::new(3, 5)
    );
    assert_eq!(
        column_range(&FieldPosition::new(1, 2), 3),
        vec![
            FieldPosition::new(1, 2),
            FieldPosition::new(1, 3),
            FieldPosition::new(1, 4)
        ]
    );
    assert_eq!(
        column_range(&FieldPosition::new(1, 2), 0),
        Vec::<FieldPosition>::new()
    );
}

#[test]
fn parents_are_the_nearest_actions_before() {
    let a = FieldPosition::new(0, 0);
    let b = FieldPosition::new(1, 0);
    let c = FieldPosition::new(2, 0);
    let actions = vec![
        slide(a, b, 3),
        slide(c, FieldPosition::new(3, 0), 8),
        slide(b, c, 3),
        goal_from(PositionNoGoal::Field(FieldPosition::new(4, 0)), 2),
        goal_from(PositionNoGoal::Field(c), 3),
    ];
    assert_eq!(get_move_parents(&actions, 0), Vec::<usize>::new());
    assert_eq!(get_move_parents(&actions, 2), vec![0]);
    assert_eq!(get_move_parents(&actions, 4), vec![2]);
    assert_eq!(get_unblocking_parent(&actions, 2), Some(1));
    assert_eq!(get_socket_parent(&actions, 2), None);
    assert_eq!(
        get_destination_parent(&actions, 2),
        Some((1, RelationType::Unblock))
    );
    assert_eq!(get_destination_parent(&actions, 0), None);
    assert_eq!(get_goal_parent(&actions, 4), Some(3));
    assert_eq!(get_goal_parent(&actions, 3), None);
    assert_eq!(get_goal_parent(&actions, 0), None);
    assert_eq!(get_clear_parents(&actions, 4), Vec::<usize>::new());
    let found = search_parent_tree(&actions, 4, |action| matches!(action, All::Move(_)));
    assert_eq!(found, Some((2, &actions[2])));
    let none = search_parent_tree(&actions, 0, |_| true);
    assert_eq!(none, None);
    let beyond = search_parent_tree(&actions, 100, |action| matches!(action, All::Goal(_)));
    assert_eq!(beyond, Some((4, &actions[4])));
}

#[test]
fn socket_and_clear_parents_are_found() {
    let below = FieldPosition::new(0, 1);
    let above = FieldPosition::new(0, 2);
    let onto = vec![
        slide(FieldPosition::new(5, 0), below, 9),
        slide(FieldPosition::new(6, 0), above, 8),
    ];
    assert_eq!(get_socket_parent(&onto, 1), Some(0));
    assert_eq!(
        get_destination_parent(&onto, 1),
        Some((0, RelationType::Socket))
    );
    let clearing = vec![
        slide(above, FieldPosition::new(5, 0), 8),
        slide(below, FieldPosition::new(6, 0), 9),
    ];
    assert_eq!(get_clear_parents(&clearing, 1), vec![0]);
    assert_eq!(get_unblocking_parent(&clearing, 1), None);
}

#[test]
fn edges_of_a_merged_parent_go_over_to_its_child() {
    let mut graph = ActionGraph::new();
    for column in 0..5 {
        graph.add_node(goal_from(
            PositionNoGoal::Field(FieldPosition::new(column, 0)),
            1,
        ));
    }
    graph.add_edge(0, 1, RelationType::Clear);
    graph.add_edge(4, 1, RelationType::Unblock);
    graph.add_edge(1, 2, RelationType::Move);
    graph.add_edge(1, 3, RelationType::Clear);
    graph.add_edge(2, 3, RelationType::Unblock);
    graph.add_edge(2, 0, RelationType::Clear);
    assert_eq!(get_parents(&graph, 2), vec![1]);
    assert_eq!(socket_for(&graph, 1), Vec::<usize>::new());
    assert_eq!(merge_edges(&mut graph, 1, 2), Ok(()));
    assert_eq!(graph.node_indices(), vec![0, 2, 3, 4]);
    let mut edges: Vec<(usize, usize, RelationType)> = Vec::new();
    for node in graph.node_indices() {
        for edge in graph.outgoing(node) {
            edges.push((edge.source, edge.target, edge.kind));
        }
    }
    assert_eq!(
        edges,
        vec![
            (0, 2, RelationType::Clear),
            (2, 3, RelationType::Clear),
            (4, 3, RelationType::Unblock),
        ]
    );
}

#[test]
fn each_contradiction_ends_a_merge() {
    let mut graph = three_nodes();
    assert_eq!(
        merge_edges(&mut graph, 7, 1),
        Err(OptimizeError::MissingNode { node: 7 })
    );
    assert_eq!(
        merge_edges(&mut graph, 0, 9),
        Err(OptimizeError::MissingNode { node: 9 })
    );
    let mut graph = three_nodes();
    graph.add_edge(2, 0, RelationType::Goal);
    assert_eq!(
        merge_edges(&mut graph, 0, 1),
        Err(OptimizeError::GoalRelation { parent: 0 })
    );
    let mut graph = three_nodes();
    graph.add_edge(0, 2, RelationType::Socket);
    assert_eq!(
        merge_edges(&mut graph, 0, 1),
        Err(OptimizeError::SocketProvider { parent: 0 })
    );
    let mut graph = three_nodes();
    graph.add_edge(0, 2, RelationType::Goal);
    assert_eq!(
        merge_edges(&mut graph, 0, 1),
        Err(OptimizeError::GoalRelation { parent: 0 })
    );
    let mut graph = three_nodes();
    graph.add_edge(2, 1, RelationType::Clear);
    assert_eq!(
        merge_edges(&mut graph, 0, 1),
        Err(OptimizeError::UnexplainedClear { child: 1 })
    );
    let mut graph = three_nodes();
    graph.add_edge(0, 1, RelationType::Move);
    graph.add_edge(2, 1, RelationType::Move);
    assert_eq!(
        merge_edges(&mut graph, 0, 1),
        Err(OptimizeError::SecondMoveParent { child: 1 })
    );
    let mut graph = three_nodes();
    graph.add_node(goal_from(PositionNoGoal::Bunker { slot_index: 0 }, 1));
    graph.add_edge(2, 0, RelationType::Unblock);
    graph.add_edge(3, 0, RelationType::Socket);
    graph.add_edge(1, 2, RelationType::Unblock);
    assert_eq!(
        merge_edges(&mut graph, 0, 1),
        Err(OptimizeError::BothParents { parent: 0 })
    );
    assert_eq!(graph.node_count(), 4);
    assert_eq!(graph.edge_count(), 3);
}

#[test]
fn refusals_of_a_merge_end_it_or_leave_the_pair() {
    let q = FieldPosition::new(5, 0);
    let from_bunker = All::Bunkerize(Bunkerize {
        card: CardTypeNoHua::Number(card(NumberCardColor::Red, 3)),
        bunker_slot_index: 1,
        field_position: q,
        to_bunker: false,
    });
    let to_bunker = All::Bunkerize(Bunkerize {
        card: CardTypeNoHua::Number(card(NumberCardColor::Red, 3)),
        bunker_slot_index: 1,
        field_position: q,
        to_bunker: true,
    });
    let stack = All::Move(Move::new(
        q,
        FieldPosition::new(6, 0),
        &[
            CardType::Number(card(NumberCardColor::Red, 3)),
            CardType::Number(card(NumberCardColor::Black, 2)),
        ],
    ));
    let hua_move = All::Move(Move::new(q, FieldPosition::new(6, 0), &[CardType::Hua]));
    let hua_kill = All::HuaKill(HuaKill { field_position: q });
    assert_eq!(
        merge_actions(&stack, &from_bunker),
        Err(MergeRefusal::StackFromBunker)
    );
    assert_eq!(
        merge_actions(&hua_move, &from_bunker),
        Err(MergeRefusal::HuaFromBunker)
    );
    assert_eq!(MergeRefusal::StackFromBunker.error(), OptimizeError::StackFromBunker);
    assert_eq!(MergeRefusal::HuaFromBunker.error(), OptimizeError::HuaFromBunker);

    let mut graph = ActionGraph::new();
    graph.add_node(from_bunker);
    graph.add_node(from_bunker);
    graph.add_node(hua_kill);
    graph.add_node(to_bunker);
    assert_eq!(
        try_merge(&mut graph, 0, 1),
        Err(OptimizeError::DoubleDebunkerize)
    );
    assert_eq!(try_merge(&mut graph, 0, 2), Err(OptimizeError::HuaKillChild));
    assert_eq!(try_merge(&mut graph, 0, 3), Ok(false));
    assert_eq!(graph.node_count(), 4);
    assert_eq!(
        try_merge(&mut graph, 0, 8),
        Err(OptimizeError::MissingNode { node: 8 })
    );
    assert_eq!(
        delete_bunker_loop(&mut graph, 3, 0),
        Err(OptimizeError::NotBunkerLoop {
            parent: 3,
            child: 0
        })
    );
    assert_eq!(
        delete_bunker_loop(&mut graph, 0, 2),
        Err(OptimizeError::NotBunkerLoop {
            parent: 0,
            child: 2
        })
    );
    assert!(MAX_ACTIONS < u32::MAX as usize / 16 + 1);
}

#[test]
fn node_without_effect_is_led_past() {
    let mut graph = three_nodes();
    graph.add_node(goal_from(PositionNoGoal::Bunker { slot_index: 0 }, 1));
    graph.add_edge(0, 1, RelationType::Move);
    graph.add_edge(1, 2, RelationType::Move);
    graph.add_edge(3, 1, RelationType::Unblock);
    graph.add_edge(1, 2, RelationType::Unblock);
    graph.add_edge(1, 3, RelationType::Socket);
    let weird = delete_null_node(&mut graph, 1).unwrap();
    assert_eq!(weird.len(), 1);
    assert_eq!(
        (weird[0].source, weird[0].target, weird[0].kind),
        (1, 3, RelationType::Socket)
    );
    assert_eq!(graph.node_indices(), vec![0, 2, 3]);
    let into: Vec<(usize, RelationType)> = graph
        .incoming(2)
        .iter()
        .map(|edge| (edge.source, edge.kind))
        .collect();
    assert_eq!(
        into,
        vec![(3, RelationType::Unblock), (0, RelationType::Move)]
    );
    let mut twice = three_nodes();
    twice.add_edge(0, 1, RelationType::Move);
    twice.add_edge(2, 1, RelationType::Move);
    twice.add_edge(1, 2, RelationType::Move);
    assert_eq!(delete_null_node(&mut twice, 1).unwrap().len(), 0);
    assert_eq!(twice.edge_count(), 0);
}

#[test]
fn bunker_slots_are_exchanged_along_move_and_unblock_edges() {
    let mut graph = ActionGraph::new();
    for _ in 0..4 {
        graph.add_node(goal_from(PositionNoGoal::Bunker { slot_index: 2 }, 1));
    }
    graph.add_edge(0, 1, RelationType::Move);
    graph.add_edge(1, 2, RelationType::Unblock);
    graph.add_edge(0, 3, RelationType::Clear);
    flip_bunker_slots(&mut graph, 0, 0, 2);
    let swapped = Some(goal_from(PositionNoGoal::Bunker { slot_index: 0 }, 1));
    let kept = Some(goal_from(PositionNoGoal::Bunker { slot_index: 2 }, 1));
    assert_eq!(graph.action(0), swapped);
    assert_eq!(graph.action(1), swapped);
    assert_eq!(graph.action(2), swapped);
    assert_eq!(graph.action(3), kept);
    assert_eq!(graph.slot_reach(1), vec![1, 2]);
}

#[test]
fn candidates_are_chosen_once_per_node() {
    let a = FieldPosition::new(0, 0);
    let b = FieldPosition::new(1, 0);
    let c = FieldPosition::new(2, 0);
    let actions = vec![
        slide(a, b, 4),
        slide(b, c, 4),
        goal_from(PositionNoGoal::Field(c), 4),
    ];
    let graph = solver::action_optimization::graph_entity::to_graph(&actions).unwrap();
    let none_used: HashSet<usize> = HashSet::new();
    assert_eq!(candidate_parent(&graph, &none_used, 0), None);
    assert_eq!(
        candidate_parent(&graph, &none_used, 1),
        Some((0, CandidateKind::Mergeable))
    );
    assert_eq!(
        candidate_parent(&graph, &none_used, 2),
        Some((1, CandidateKind::Mergeable))
    );
    let mut used: HashSet<usize> = HashSet::new();
    used.insert(1);
    assert_eq!(candidate_parent(&graph, &used, 2), None);
    let chosen = select_candidates(&graph);
    assert_eq!(chosen.mergeable, vec![(0, 1)]);
    assert_eq!(chosen.loop_deletion, Vec::<(usize, usize)>::new());
    assert_eq!(chosen.bunker_loop_deletion, Vec::<(usize, usize)>::new());
    let back = vec![slide(a, b, 4), slide(b, a, 4)];
    let graph = solver::action_optimization::graph_entity::to_graph(&back).unwrap();
    assert_eq!(
        candidate_parent(&graph, &none_used, 1),
        Some((0, CandidateKind::FieldLoop))
    );
}
