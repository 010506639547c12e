use solver::actions::possibilities::{
    all_actions, bunkerize_actions, debunkerize_actions, dragonkill_actions, field_move_actions,
    filter_actions, goal_move_actions, huakill_actions,
};
use solver::actions::{All, Bunkerize, DragonKill, Goal, HuaKill, Move};
use solver::board::{
    Board, BunkerSlot, CardType, CardTypeNoHua, FieldPosition, NumberCard, NumberCardColor,
    PositionNoGoal, SpecialCardType,
};

fn number(suit: NumberCardColor, value: u8) -> CardType {
    CardType::Number(NumberCard { suit, value })
}

/// Four Zhong dragons on top of four columns, a red ace on a fifth, three
/// columns and all bunker slots empty.
fn dragonkill_board() -> Board {
    let mut board = Board::default();
    board.hua_set = true;
    board.goal = [None, None, None];
    board.bunker = [BunkerSlot::Empty, BunkerSlot::Empty, BunkerSlot::Empty];
    for column in 0..4 {
        board.field[column].push(CardType::Special(SpecialCardType::Bai));
        board.field[column].push(CardType::Special(SpecialCardType::Zhong));
    }
    board.field[4].push(number(NumberCardColor::Red, 1));
    board
}

#[test]
fn dragonkill_test() {
    let mut x = dragonkill_board();
    assert_eq!(dragonkill_actions(&x).len(), 1);
    x.field[3].pop();
    x.bunker[2] = BunkerSlot::Stash(CardTypeNoHua::Special(SpecialCardType::Zhong));
    assert_eq!(dragonkill_actions(&x).len(), 1);
}

#[test]
fn bunkerize_test() {
    let x = dragonkill_board();
    assert_eq!(bunkerize_actions(&x).len(), 5);
}

#[test]
fn all_actions_test() {
    let x = dragonkill_board();
    let possible_actions = all_actions(&x);
    assert_eq!(possible_actions.len(), 12);
    assert_eq!(
        possible_actions.iter().fold([0, 0, 0, 0, 0], |mut sum, x| {
            match x {
                All::Bunkerize(_) => sum[0] += 1,
                All::Move(_) => sum[1] += 1,
                All::Goal(_) => sum[2] += 1,
                All::DragonKill(_) => sum[3] += 1,
                _ => sum[4] += 1,
            }
            return sum;
        }),
        [5, 5, 1, 1, 0]
    );
}

#[test]
fn dragonkill_names_the_four_places_and_the_first_free_slot() {
    let mut x = dragonkill_board();
    x.bunker[0] = BunkerSlot::Blocked(None);
    assert_eq!(
        dragonkill_actions(&x),
        vec![All::DragonKill(DragonKill {
            card: SpecialCardType::Zhong,
            source: [
                PositionNoGoal::Field(FieldPosition::new(0, 1)),
                PositionNoGoal::Field(FieldPosition::new(1, 1)),
                PositionNoGoal::Field(FieldPosition::new(2, 1)),
                PositionNoGoal::Field(FieldPosition::new(3, 1)),
            ],
            destination_slot_index: 1,
        })]
    );
    x.field[3].pop();
    x.bunker[2] = BunkerSlot::Stash(CardTypeNoHua::Special(SpecialCardType::Zhong));
    x.bunker[1] = BunkerSlot::Blocked(None);
    assert_eq!(
        dragonkill_actions(&x),
        vec![All::DragonKill(DragonKill {
            card: SpecialCardType::Zhong,
            source: [
                PositionNoGoal::Bunker { slot_index: 2 },
                PositionNoGoal::Field(FieldPosition::new(0, 1)),
                PositionNoGoal::Field(FieldPosition::new(1, 1)),
                PositionNoGoal::Field(FieldPosition::new(2, 1)),
            ],
            destination_slot_index: 2,
        })]
    );
}

#[test]
fn each_kind_of_action_is_offered_where_it_can_be_made() {
    let mut board = Board::default();
    board.goal = [
        Some(NumberCard {
            suit: NumberCardColor::Black,
            value: 4,
        }),
        None,
        None,
    ];
    board.bunker = [
        BunkerSlot::Stash(CardTypeNoHua::Number(NumberCard {
            suit: NumberCardColor::Green,
            value: 6,
        })),
        BunkerSlot::Empty,
        BunkerSlot::Blocked(None),
    ];
    board.field[0].push(number(NumberCardColor::Red, 8));
    board.field[0].push(number(NumberCardColor::Black, 7));
    board.field[1].push(number(NumberCardColor::Black, 5));
    board.field[2].push(CardType::Hua);
    board.field[3].push(number(NumberCardColor::Red, 7));
    for column in 4..8 {
        board.field[column].push(CardType::Special(SpecialCardType::Fa));
    }
    assert_eq!(
        huakill_actions(&board),
        vec![All::HuaKill(HuaKill {
            field_position: FieldPosition::new(2, 0)
        })]
    );
    assert_eq!(
        goal_move_actions(&board),
        vec![All::Goal(Goal {
            card: NumberCard {
                suit: NumberCardColor::Black,
                value: 5
            },
            source: PositionNoGoal::Field(FieldPosition::new(1, 0)),
            goal_slot_index: 0,
        })]
    );
    assert_eq!(
        debunkerize_actions(&board),
        vec![All::Bunkerize(Bunkerize {
            card: CardTypeNoHua::Number(NumberCard {
                suit: NumberCardColor::Green,
                value: 6
            }),
            bunker_slot_index: 0,
            field_position: FieldPosition::new(0, 2),
            to_bunker: false,
        })]
    );
    let stack = [
        number(NumberCardColor::Red, 8),
        number(NumberCardColor::Black, 7),
    ];
    assert_eq!(field_move_actions(&board), Vec::<All>::new());
    board.field[2].pop();
    assert_eq!(
        field_move_actions(&board),
        vec![
            All::Move(Move::new(
                FieldPosition::new(0, 0),
                FieldPosition::new(2, 0),
                &stack
            )),
            All::Move(Move::new(
                FieldPosition::new(0, 1),
                FieldPosition::new(2, 0),
                &stack[1..]
            )),
            All::Move(Move::new(
                FieldPosition::new(1, 0),
                FieldPosition::new(2, 0),
                &[number(NumberCardColor::Black, 5)]
            )),
            All::Move(Move::new(
                FieldPosition::new(3, 0),
                FieldPosition::new(2, 0),
                &[number(NumberCardColor::Red, 7)]
            )),
            All::Move(Move::new(
                FieldPosition::new(4, 0),
                FieldPosition::new(2, 0),
                &[CardType::Special(SpecialCardType::Fa)]
            )),
            All::Move(Move::new(
                FieldPosition::new(5, 0),
                FieldPosition::new(2, 0),
                &[CardType::Special(SpecialCardType::Fa)]
            )),
            All::Move(Move::new(
                FieldPosition::new(6, 0),
                FieldPosition::new(2, 0),
                &[CardType::Special(SpecialCardType::Fa)]
            )),
            All::Move(Move::new(
                FieldPosition::new(7, 0),
                FieldPosition::new(2, 0),
                &[CardType::Special(SpecialCardType::Fa)]
            )),
        ]
    );
    assert_eq!(dragonkill_actions(&board).len(), 1);
    assert_eq!(bunkerize_actions(&board).len(), 7);
    board.field[2].push(CardType::Hua);
    assert_eq!(
        filter_actions(&board),
        vec![All::HuaKill(HuaKill {
            field_position: FieldPosition::new(2, 0)
        })]
    );
    board.field[2].pop();
    assert_eq!(filter_actions(&board), all_actions(&board));
    board.goal[1] = Some(NumberCard {
        suit: NumberCardColor::Red,
        value: 6,
    });
    board.goal[2] = Some(NumberCard {
        suit: NumberCardColor::Green,
        value: 5,
    });
    assert_eq!(
        filter_actions(&board),
        vec![All::Goal(Goal {
            card: NumberCard {
                suit: NumberCardColor::Black,
                value: 5
            },
            source: PositionNoGoal::Field(FieldPosition::new(1, 0)),
            goal_slot_index: 0,
        })]
    );
}

#[test]
fn actions_change_the_board_and_are_taken_back() {
    let board = dragonkill_board();
    for action in all_actions(&board) {
        assert!(action.check_fits(&board));
        let mut changed = board.duplicate();
        action.apply(&mut changed);
        assert_ne!(changed, board);
        assert!(action.check_fits_back(&changed));
        action.undo(&mut changed);
        assert_eq!(changed, board);
    }
    let mut after = board.duplicate();
    All::Goal(Goal {
        card: NumberCard {
            suit: NumberCardColor::Red,
            value: 1,
        },
        source: PositionNoGoal::Field(FieldPosition::new(4, 0)),
        goal_slot_index: 0,
    })
    .apply(&mut after);
    assert_eq!(after.field[4], Vec::<CardType>::new());
    assert_eq!(
        after.goal[0],
        Some(NumberCard {
            suit: NumberCardColor::Red,
            value: 1
        })
    );
}
