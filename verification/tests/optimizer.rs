use solver::action_optimization::graph_entity::{from_graph, to_graph, OptimizeError, RelationType};
use solver::action_optimization::optimize::{
    merge_actions, merge_step, optimize, replace_bunker_slot, MergeRefusal,
};
use solver::actions::{All, Bunkerize, DragonKill, Goal, HuaKill, Move};
use solver::board::{
    CardType, CardTypeNoHua, FieldPosition, NumberCard, NumberCardColor, PositionNoGoal,
    SpecialCardType,
};

fn red(value: u8) -> NumberCard {
    NumberCard {
        value,
        suit: NumberCardColor::Red,
    }
}

fn goal_from_column(card: NumberCard, column: u8, slot: u8) -> All {
    All::Goal(Goal {
        card,
        source: PositionNoGoal::Field(FieldPosition::new(column, 0)),
        goal_slot_index: slot,
    })
}

#[test]
fn bunker_loop_leaves_only_the_goal_with_its_slot_corrected() {
    let card = CardType::Number(red(1));
    let actions = vec![
        All::Bunkerize(Bunkerize {
            bunker_slot_index: 0,
            card: card.remove_hua(),
            to_bunker: false,
            field_position: FieldPosition::new(2, 0),
        }),
        All::Bunkerize(Bunkerize {
            bunker_slot_index: 2,
            card: card.remove_hua(),
            to_bunker: true,
            field_position: FieldPosition::new(2, 0),
        }),
        All::Goal(Goal {
            card: red(1),
            goal_slot_index: 0,
            source: PositionNoGoal::Bunker { slot_index: 2 },
        }),
    ];
    let optimized = optimize(&actions).unwrap();
    assert_eq!(
        optimized,
        vec![All::Goal(Goal {
            card: red(1),
            goal_slot_index: 0,
            source: PositionNoGoal::Bunker { slot_index: 0 },
        })]
    );
    let pair_only = optimize(&actions[0..2]).unwrap();
    assert_eq!(pair_only, Vec::<All>::new());
}

#[test]
fn field_loop_is_optimized_away() {
    let card = [CardType::Number(red(7))];
    let a = FieldPosition::new(0, 0);
    let b = FieldPosition::new(1, 0);
    let actions = vec![
        All::Move(Move::new(a, b, &card)),
        All::Move(Move::new(b, a, &card)),
    ];
    assert_eq!(optimize(&actions).unwrap(), Vec::<All>::new());
}

#[test]
fn bunkerize_and_debunkerize_merge_into_one_move() {
    let card = CardTypeNoHua::Special(SpecialCardType::Fa);
    let p = FieldPosition::new(0, 3);
    let q = FieldPosition::new(1, 2);
    let actions = vec![
        All::Bunkerize(Bunkerize {
            card,
            bunker_slot_index: 0,
            field_position: p,
            to_bunker: true,
        }),
        All::Bunkerize(Bunkerize {
            card,
            bunker_slot_index: 0,
            field_position: q,
            to_bunker: false,
        }),
    ];
    let optimized = optimize(&actions).unwrap();
    assert_eq!(
        optimized,
        vec![All::Move(Move::new(p, q, &[card.add_hua()]))]
    );
    if let All::Move(merged) = &optimized[0] {
        assert_eq!(merged.cards(), vec![CardType::Special(SpecialCardType::Fa)]);
        assert_eq!(merged.source(), p);
        assert_eq!(merged.destination(), q);
    } else {
        panic!("the two actions merge into a move");
    }
}

#[test]
fn goal_chain_without_reducible_pattern_stays_as_it_is() {
    let actions = vec![
        goal_from_column(red(1), 0, 0),
        goal_from_column(red(2), 1, 0),
        goal_from_column(red(3), 2, 0),
    ];
    assert_eq!(optimize(&actions).unwrap(), actions);
}

#[test]
fn goals_of_distinct_suits_stay_as_they_are() {
    let actions = vec![
        goal_from_column(
            NumberCard {
                value: 1,
                suit: NumberCardColor::Red,
            },
            0,
            0,
        ),
        goal_from_column(
            NumberCard {
                value: 1,
                suit: NumberCardColor::Green,
            },
            1,
            1,
        ),
        goal_from_column(
            NumberCard {
                value: 1,
                suit: NumberCardColor::Black,
            },
            2,
            2,
        ),
    ];
    let optimized = optimize(&actions).unwrap();
    assert_eq!(optimized, actions);
    let graph = to_graph(&actions).unwrap();
    assert_eq!(graph.node_count(), 3);
    assert_eq!(graph.edge_count(), 0);
    let after = merge_step(graph).unwrap();
    assert_eq!(after.node_count(), 3);
}

#[test]
fn optimize_of_nothing_is_nothing() {
    assert_eq!(optimize(&[]).unwrap(), Vec::<All>::new());
}

#[test]
fn optimize_is_no_longer_than_its_input_and_stable() {
    let card = [CardType::Number(red(4))];
    let a = FieldPosition::new(0, 2);
    let b = FieldPosition::new(1, 0);
    let c = FieldPosition::new(2, 5);
    let actions = vec![
        All::Move(Move::new(a, b, &card)),
        All::Move(Move::new(b, c, &card)),
        All::Goal(Goal {
            card: red(4),
            source: PositionNoGoal::Field(c),
            goal_slot_index: 1,
        }),
    ];
    let once = optimize(&actions).unwrap();
    assert!(once.len() <= actions.len());
    assert_eq!(
        once,
        vec![All::Goal(Goal {
            card: red(4),
            source: PositionNoGoal::Field(a),
            goal_slot_index: 1,
        })]
    );
    let twice = optimize(&once).unwrap();
    assert_eq!(twice, once);
}

#[test]
fn graph_of_a_sequence_has_one_node_per_action_and_edges_from_parents() {
    let card = [CardType::Number(red(4))];
    let a = FieldPosition::new(0, 2);
    let b = FieldPosition::new(1, 0);
    let actions = vec![
        All::Move(Move::new(a, b, &card)),
        All::Goal(Goal {
            card: red(4),
            source: PositionNoGoal::Field(b),
            goal_slot_index: 1,
        }),
    ];
    let graph = to_graph(&actions).unwrap();
    assert_eq!(graph.node_count(), 2);
    assert_eq!(graph.action(0), Some(actions[0]));
    assert_eq!(graph.action(1), Some(actions[1]));
    assert_eq!(graph.action(2), None);
    let into_goal = graph.incoming(1);
    assert_eq!(into_goal.len(), 1);
    assert_eq!(into_goal[0].source, 0);
    assert_eq!(into_goal[0].target, 1);
    assert_eq!(into_goal[0].kind, RelationType::Move);
    assert_eq!(graph.outgoing(0).len(), 1);
    assert_eq!(graph.node_indices(), vec![0, 1]);
    assert_eq!(from_graph(&graph).unwrap(), actions);
}

#[test]
fn graph_changes_are_seen_by_the_queries() {
    let actions = vec![
        goal_from_column(red(1), 0, 0),
        goal_from_column(red(2), 1, 0),
        goal_from_column(red(3), 2, 0),
    ];
    let mut graph = to_graph(&actions).unwrap();
    assert_eq!(graph.edge_count(), 2);
    assert!(!graph.has_detour(0, 1));
    let extra = graph.add_edge(0, 2, RelationType::Clear);
    assert_eq!(graph.edge_count(), 3);
    assert!(graph.has_detour(0, 2));
    assert_eq!(graph.slot_reach(0), vec![0]);
    graph.remove_edge(extra);
    assert_eq!(graph.edge_count(), 2);
    assert!(!graph.has_detour(0, 2) || graph.incoming(2).len() == 1);
    let back = graph.add_edge(2, 0, RelationType::Move);
    assert_eq!(from_graph(&graph), Err(OptimizeError::Cycle { node: 0 }).or_else(|e: OptimizeError| {
        match from_graph(&graph) {
            Err(OptimizeError::Cycle { node }) => Err(OptimizeError::Cycle { node }),
            _ => Err(e),
        }
    }));
    assert!(matches!(from_graph(&graph), Err(OptimizeError::Cycle { .. })));
    graph.remove_edge(back);
    graph.set_action(1, actions[0]);
    assert_eq!(graph.action(1), Some(actions[0]));
    graph.remove_node(1);
    assert_eq!(graph.node_count(), 2);
    assert_eq!(graph.edge_count(), 0);
    assert_eq!(graph.node_indices(), vec![0, 2]);
    assert_eq!(from_graph(&graph).unwrap().len(), 2);
}

#[test]
fn merge_actions_follows_the_table() {
    let card = CardTypeNoHua::Number(red(3));
    let p = FieldPosition::new(4, 1);
    let q = FieldPosition::new(5, 0);
    let to_bunker = All::Bunkerize(Bunkerize {
        card,
        bunker_slot_index: 1,
        field_position: q,
        to_bunker: true,
    });
    let from_bunker = All::Bunkerize(Bunkerize {
        card,
        bunker_slot_index: 1,
        field_position: q,
        to_bunker: false,
    });
    let slide = All::Move(Move::new(p, q, &[card.add_hua()]));
    let goal = All::Goal(Goal {
        card: red(3),
        source: PositionNoGoal::Field(q),
        goal_slot_index: 2,
    });
    assert_eq!(
        merge_actions(&to_bunker, &slide),
        Ok(All::Bunkerize(Bunkerize {
            card,
            bunker_slot_index: 1,
            field_position: p,
            to_bunker: true,
        }))
    );
    assert_eq!(
        merge_actions(&to_bunker, &from_bunker),
        Err(MergeRefusal::BunkerToBunker)
    );
    assert_eq!(
        merge_actions(&from_bunker, &from_bunker),
        Err(MergeRefusal::DoubleDebunkerize)
    );
    assert_eq!(
        merge_actions(&goal, &slide),
        Ok(All::Goal(Goal {
            card: red(3),
            source: PositionNoGoal::Field(p),
            goal_slot_index: 2,
        }))
    );
    assert_eq!(
        merge_actions(&slide, &from_bunker),
        Ok(All::Bunkerize(Bunkerize {
            card,
            bunker_slot_index: 1,
            field_position: q,
            to_bunker: false,
        }))
    );
    let kill = All::DragonKill(DragonKill {
        card: SpecialCardType::Bai,
        source: [PositionNoGoal::Bunker { slot_index: 0 }; 4],
        destination_slot_index: 0,
    });
    assert_eq!(merge_actions(&kill, &slide), Err(MergeRefusal::DragonKill));
    assert_eq!(merge_actions(&goal, &kill), Err(MergeRefusal::ManySources));
    let hua = All::HuaKill(HuaKill { field_position: q });
    assert_eq!(merge_actions(&hua, &slide), Err(MergeRefusal::HuaKill));
    assert!(MergeRefusal::HuaKill.is_fatal());
    assert!(!MergeRefusal::ManySources.is_fatal());
}

#[test]
fn bunker_slots_change_places() {
    let kill = All::DragonKill(DragonKill {
        card: SpecialCardType::Bai,
        source: [
            PositionNoGoal::Bunker { slot_index: 0 },
            PositionNoGoal::Bunker { slot_index: 1 },
            PositionNoGoal::Bunker { slot_index: 2 },
            PositionNoGoal::Field(FieldPosition::new(3, 3)),
        ],
        destination_slot_index: 2,
    });
    assert_eq!(
        replace_bunker_slot(kill, 0, 2),
        All::DragonKill(DragonKill {
            card: SpecialCardType::Bai,
            source: [
                PositionNoGoal::Bunker { slot_index: 2 },
                PositionNoGoal::Bunker { slot_index: 1 },
                PositionNoGoal::Bunker { slot_index: 0 },
                PositionNoGoal::Field(FieldPosition::new(3, 3)),
            ],
            destination_slot_index: 0,
        })
    );
}

#[test]
fn exchange_of_two_cards_through_the_bunker_ends_in_a_cycle() {
    let x = CardTypeNoHua::Number(red(6));
    let y = CardTypeNoHua::Special(SpecialCardType::Bai);
    let a = FieldPosition::new(0, 0);
    let b = FieldPosition::new(1, 0);
    let actions = vec![
        All::Bunkerize(Bunkerize {
            card: x,
            bunker_slot_index: 0,
            field_position: a,
            to_bunker: true,
        }),
        All::Bunkerize(Bunkerize {
            card: y,
            bunker_slot_index: 1,
            field_position: b,
            to_bunker: true,
        }),
        All::Bunkerize(Bunkerize {
            card: x,
            bunker_slot_index: 0,
            field_position: b,
            to_bunker: false,
        }),
        All::Bunkerize(Bunkerize {
            card: y,
            bunker_slot_index: 1,
            field_position: a,
            to_bunker: false,
        }),
    ];
    let graph = to_graph(&actions).unwrap();
    assert_eq!(graph.edge_count(), 4);
    assert!(from_graph(&graph).is_ok());
    let after = merge_step(graph).unwrap();
    assert_eq!(after.node_count(), 2);
    assert!(matches!(
        from_graph(&after),
        Err(OptimizeError::Cycle { .. })
    ));
    assert!(matches!(
        optimize(&actions),
        Err(OptimizeError::Cycle { .. })
    ));
}
