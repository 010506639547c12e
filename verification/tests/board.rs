use solver::board::{
    BitSquasher, Board, BunkerSlot, CardType, CardTypeNoHua, Error, FieldPosition, NumberCard,
    NumberCardColor, Position, PositionNoGoal, SpecialCardType,
};

fn solved_board() -> Board {
    let mut board = Board::default();
    board.hua_set = true;
    board
}

#[test]
fn bit_squasher_test() {
    let mut buffer: [u8; 4] = Default::default();

    let mut squasher = BitSquasher::new(&mut buffer);
    squasher.squash(0b101, 3);
    squasher.squash(0b1111000, 7);
    squasher.squash(0b11001100, 8);
    squasher.squash(0b101010, 6);

    assert_eq!(buffer, [0b11000101, 0b00110011, 0b10101011, 0]);
}

#[test]
fn check_test() {
    let mut x = solved_board();
    assert_eq!(x.check(), Result::Ok(()));
    assert_eq!(x.solved(), true);
    x.field[2].push(CardType::Hua);
    assert_eq!(x.check(), Result::Err(Error::CardDouble(CardType::Hua)));
    x.hua_set = false;
    assert_eq!(x.check(), Result::Ok(()));
    x.field[2].push(CardType::Number(NumberCard {
        suit: NumberCardColor::Black,
        value: 9,
    }));
    assert_eq!(
        x.check(),
        Result::Err(Error::GoalTooHigh(NumberCard {
            value: 9,
            suit: NumberCardColor::Black
        }))
    );
    x.goal[0] = Some(NumberCard {
        suit: NumberCardColor::Black,
        value: 8,
    });
    assert_eq!(x.check(), Result::Ok(()));
    assert_eq!(x.solved(), false);
}

#[test]
fn check_names_each_kind_of_error() {
    let mut board = solved_board();
    board.field[0].push(CardType::Number(NumberCard {
        suit: NumberCardColor::Red,
        value: 10,
    }));
    assert_eq!(
        board.check(),
        Err(Error::ErraneousCard(NumberCard {
            suit: NumberCardColor::Red,
            value: 10
        }))
    );
    let mut board = solved_board();
    board.goal[1] = None;
    assert_eq!(
        board.check(),
        Err(Error::CardMissing(CardType::Number(NumberCard {
            suit: NumberCardColor::Red,
            value: 1
        })))
    );
    let mut board = solved_board();
    board.bunker[0] = BunkerSlot::Empty;
    assert_eq!(
        board.check(),
        Err(Error::CardMissing(CardType::Special(SpecialCardType::Bai)))
    );
    board.bunker[0] = BunkerSlot::Blocked(None);
    assert_eq!(board.check(), Ok(()));
    let mut board = solved_board();
    board.bunker[0] = BunkerSlot::Stash(CardTypeNoHua::Special(SpecialCardType::Zhong));
    board.field[5].push(CardType::Special(SpecialCardType::Zhong));
    assert_eq!(
        board.check(),
        Err(Error::CardDouble(CardType::Special(SpecialCardType::Zhong)))
    );
    let mut board = solved_board();
    board.goal[0] = Some(NumberCard {
        suit: NumberCardColor::Black,
        value: 12,
    });
    assert_eq!(
        board.check(),
        Err(Error::GoalTooHigh(NumberCard {
            suit: NumberCardColor::Black,
            value: 12
        }))
    );
}

#[test]
fn goal_value_is_the_rank_on_the_pile_of_the_suit() {
    let mut board = solved_board();
    assert_eq!(board.goal_value(&NumberCardColor::Green), 9);
    board.goal[2] = None;
    assert_eq!(board.goal_value(&NumberCardColor::Green), 0);
    board.goal[1] = Some(NumberCard {
        suit: NumberCardColor::Red,
        value: 4,
    });
    assert_eq!(board.goal_value(&NumberCardColor::Red), 4);
}

#[test]
fn movable_cards_come_from_the_bunker_and_the_column_tops() {
    let mut board = solved_board();
    board.bunker[1] = BunkerSlot::Stash(CardTypeNoHua::Special(SpecialCardType::Zhong));
    board.field[3].push(CardType::Hua);
    board.field[3].push(CardType::Special(SpecialCardType::Fa));
    board.field[6].push(CardType::Hua);
    assert_eq!(
        board.movable_cards(),
        vec![
            (
                PositionNoGoal::Bunker { slot_index: 1 },
                CardType::Special(SpecialCardType::Zhong)
            ),
            (
                PositionNoGoal::Field(FieldPosition::new(3, 1)),
                CardType::Special(SpecialCardType::Fa)
            ),
            (PositionNoGoal::Field(FieldPosition::new(6, 0)), CardType::Hua),
        ]
    );
    let copy = board.duplicate();
    assert_eq!(copy, board);
}

#[test]
fn field_position_keeps_four_bits_of_column_and_row() {
    let position = FieldPosition::new(5, 12);
    assert_eq!(position.column(), 5);
    assert_eq!(position.row(), 12);
    let wrapped = FieldPosition::new(21, 16);
    assert_eq!(wrapped.column(), 5);
    assert_eq!(wrapped.row(), 0);
}

#[test]
fn cards_and_positions_convert() {
    let card = CardType::Number(NumberCard {
        suit: NumberCardColor::Black,
        value: 9,
    });
    assert_eq!(card.to_byte(), 27);
    assert_eq!(CardType::Special(SpecialCardType::Fa).to_byte(), 30);
    assert_eq!(CardType::Hua.to_byte(), 31);
    assert_eq!(card.remove_hua().add_hua(), card);
    let source = PositionNoGoal::Bunker { slot_index: 2 };
    assert_eq!(Position::from_source(source), Position::Bunker { slot_index: 2 });
    assert!(source.eq_position(&Position::Bunker { slot_index: 2 }));
    assert!(!source.eq_position(&Position::Goal { slot_index: 2 }));
    assert!(PositionNoGoal::try_from_position(Position::Goal { slot_index: 0 }).is_err());
    assert!(Position::Field(FieldPosition::new(1, 1))
        .eq_source(&PositionNoGoal::Field(FieldPosition::new(1, 1))));
}
