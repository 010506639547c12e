use solver::action_optimization::drawing::{dot_actions, edge_attr, node_attr, relation_text};
use solver::action_optimization::graph_entity::RelationType;
use solver::action_optimization::util::node_name;
use solver::actions::{All, Bunkerize, DragonKill, Goal, HuaKill, Move};
use solver::board::{
    CardType, CardTypeNoHua, FieldPosition, NumberCard, NumberCardColor, Position, PositionNoGoal,
    SpecialCardType,
};

fn red(value: u8) -> NumberCard {
    NumberCard {
        value,
        suit: NumberCardColor::Red,
    }
}

#[test]
fn cards_and_places_are_named() {
    assert_eq!(SpecialCardType::Zhong.to_string(), "Zhong");
    assert_eq!(NumberCardColor::Green.to_string(), "Green");
    assert_eq!(red(5).to_string(), "Red 5");
    assert_eq!(
        NumberCard {
            value: 120,
            suit: NumberCardColor::Black
        }
        .to_string(),
        "Black 120"
    );
    assert_eq!(CardType::Hua.to_string(), "Hua");
    assert_eq!(CardType::Special(SpecialCardType::Fa).to_string(), "Fa");
    assert_eq!(CardTypeNoHua::Number(red(9)).to_string(), "Red 9");
    assert_eq!(FieldPosition::new(3, 12).to_string(), "slot #3 index #12");
    assert_eq!(
        Position::Field(FieldPosition::new(0, 1)).to_string(),
        "Field (slot #0 index #1)"
    );
    assert_eq!(Position::Goal { slot_index: 2 }.to_string(), "Goal #2");
    assert_eq!(
        PositionNoGoal::Bunker { slot_index: 1 }.to_string(),
        "Bunker #1"
    );
}

#[test]
fn actions_are_put_in_words() {
    let p = FieldPosition::new(0, 3);
    let q = FieldPosition::new(1, 2);
    assert_eq!(
        All::Goal(Goal {
            card: red(4),
            source: PositionNoGoal::Field(p),
            goal_slot_index: 1,
        })
        .to_string(),
        "Goal Red 4 from Field (slot #0 index #3) to slot #1"
    );
    assert_eq!(
        All::HuaKill(HuaKill { field_position: q }).to_string(),
        "Kill hua from slot #1 index #2"
    );
    assert_eq!(
        All::Bunkerize(Bunkerize {
            card: CardTypeNoHua::Special(SpecialCardType::Bai),
            bunker_slot_index: 2,
            field_position: p,
            to_bunker: true,
        })
        .to_string(),
        "Move Bai from slot #0 index #3 to bunker #2"
    );
    assert_eq!(
        All::Bunkerize(Bunkerize {
            card: CardTypeNoHua::Special(SpecialCardType::Bai),
            bunker_slot_index: 2,
            field_position: p,
            to_bunker: false,
        })
        .to_string(),
        "Move Bai from bunker #2 to slot #0 index #3"
    );
    assert_eq!(
        All::DragonKill(DragonKill {
            card: SpecialCardType::Fa,
            source: [
                PositionNoGoal::Bunker { slot_index: 0 },
                PositionNoGoal::Field(p),
                PositionNoGoal::Field(q),
                PositionNoGoal::Bunker { slot_index: 2 },
            ],
            destination_slot_index: 0,
        })
        .to_string(),
        "Kill Fa to bunker #0 from Bunker #0, Field (slot #0 index #3), \
         Field (slot #1 index #2), Bunker #2"
    );
    assert_eq!(
        All::Move(Move::new(p, q, &[CardType::Number(red(7))])).to_string(),
        "Move Red 7 from slot #0 index #3 to slot #1 index #2"
    );
    let stack = [
        CardType::Number(red(7)),
        CardType::Number(NumberCard {
            value: 6,
            suit: NumberCardColor::Black,
        }),
    ];
    assert_eq!(
        All::Move(Move::new(p, q, &stack)).to_string(),
        "Move 2 cards from slot #0 index #3 to slot #1 index #2"
    );
}

#[test]
fn relations_and_attributes_are_written_for_graphviz() {
    assert_eq!(relation_text(&RelationType::Unblock), "Unblock");
    assert_eq!(
        edge_attr(&RelationType::Move),
        "style=\"bold\" color=\"black\""
    );
    assert_eq!(
        edge_attr(&RelationType::Socket),
        "style=\"solid\" color=\"red\""
    );
    assert_eq!(
        node_attr(&All::HuaKill(HuaKill {
            field_position: FieldPosition::new(1, 2)
        })),
        "style=\"filled\" fillcolor=\"gold\" label=\"Kill hua from slot #1 index #2\" \
         shape=\"rect\""
    );
}

#[test]
fn graph_of_actions_is_written_for_graphviz() {
    let a = FieldPosition::new(0, 2);
    let b = FieldPosition::new(1, 0);
    let actions = vec![
        All::Move(Move::new(a, b, &[CardType::Number(red(4))])),
        All::Goal(Goal {
            card: red(4),
            source: PositionNoGoal::Field(b),
            goal_slot_index: 1,
        }),
    ];
    assert_eq!(
        dot_actions(&actions).unwrap(),
        "digraph {\n    \
         0 [ style=\"filled\" fillcolor=\"white\" \
         label=\"Move Red 4 from slot #0 index #2 to slot #1 index #0\" shape=\"rect\"]\n    \
         1 [ style=\"filled\" fillcolor=\"blue\" \
         label=\"Goal Red 4 from Field (slot #1 index #0) to slot #1\" shape=\"rect\"]\n    \
         0 -> 1 [ style=\"bold\" color=\"black\"]\n\
         }\n"
    );
}

#[test]
fn nodes_are_named_by_their_padded_index() {
    assert_eq!(node_name(0), "action_0000");
    assert_eq!(node_name(7), "action_0007");
    assert_eq!(node_name(42), "action_0042");
    assert_eq!(node_name(999), "action_0999");
    assert_eq!(node_name(1000), "action_1000");
    assert_eq!(node_name(12345), "action_12345");
}
