use solver::actions::{All, Goal};
use solver::board::{
    Board, BunkerSlot, CardType, FieldPosition, NumberCard, NumberCardColor, PositionNoGoal,
    SpecialCardType,
};
use solver::solving::benchmark::actions_correct;
use solver::solving::solve;

/// A board on which a few cards are left: the flower, two nines and the
/// four Fa dragons.
fn scarce_board() -> Board {
    let mut board = Board::default();
    board.goal = [
        Some(NumberCard {
            suit: NumberCardColor::Black,
            value: 8,
        }),
        Some(NumberCard {
            suit: NumberCardColor::Red,
            value: 8,
        }),
        Some(NumberCard {
            suit: NumberCardColor::Green,
            value: 9,
        }),
    ];
    board.bunker = [
        BunkerSlot::Blocked(Some(SpecialCardType::Bai)),
        BunkerSlot::Blocked(Some(SpecialCardType::Zhong)),
        BunkerSlot::Empty,
    ];
    for column in 0..4 {
        board.field[column].push(CardType::Special(SpecialCardType::Fa));
    }
    board.field[2].push(CardType::Hua);
    board.field[3].push(CardType::Number(NumberCard {
        suit: NumberCardColor::Black,
        value: 9,
    }));
    board.field[4].push(CardType::Number(NumberCard {
        suit: NumberCardColor::Red,
        value: 9,
    }));
    board
}

#[test]
fn test_almost_solved() {
    let x = scarce_board();
    assert_eq!(x.check(), Result::Ok(()));
    let result = solve(&x);
    assert!(result.is_ok());
}

#[test]
fn solution_solves_the_board() {
    let board = scarce_board();
    let actions = solve(&board).unwrap();
    assert_eq!(actions.len(), 4);
    assert!(actions_correct(&actions, board.duplicate()));
    let mut replayed = board.duplicate();
    for action in actions.iter() {
        assert!(action.check_fits(&replayed));
        action.apply(&mut replayed);
    }
    assert!(replayed.solved());
    assert!(!actions_correct(&actions[1..], board.duplicate()));
}

#[test]
fn solved_board_needs_no_action() {
    let mut board = Board::default();
    board.hua_set = true;
    assert_eq!(solve(&board), Ok(Vec::new()));
}

#[test]
fn board_without_solution_is_reported() {
    let mut board = Board::default();
    board.hua_set = true;
    board.goal[0] = Some(NumberCard {
        suit: NumberCardColor::Black,
        value: 7,
    });
    board.field[0].push(CardType::Number(NumberCard {
        suit: NumberCardColor::Black,
        value: 9,
    }));
    let result = solve(&board);
    assert!(result.is_err());
    assert_eq!(
        result.unwrap_err().message(),
        "Board options exhausted, no solution found"
    );
}

#[test]
fn actions_that_do_not_fit_are_not_correct() {
    let board = scarce_board();
    let misplaced = All::Goal(Goal {
        card: NumberCard {
            suit: NumberCardColor::Red,
            value: 9,
        },
        source: PositionNoGoal::Field(FieldPosition::new(9, 0)),
        goal_slot_index: 1,
    });
    assert!(!actions_correct(&[misplaced], board));
}

#[test]
fn boards_with_permuted_columns_share_their_mark() {
    let board = scarce_board();
    let mut permuted = scarce_board();
    permuted.field.swap(0, 7);
    permuted.field.swap(3, 5);
    permuted.bunker.swap(0, 2);
    assert!(board.can_hash());
    assert_eq!(board.equivalence_hash(), permuted.equivalence_hash());
    let mut other = scarce_board();
    other.field[6].push(CardType::Hua);
    assert_ne!(board.equivalence_hash(), other.equivalence_hash());
    let empty_columns = Board::default().equivalence_hash().to_bytes();
    assert_eq!(&empty_columns[0..4], &[0u8, 0, 0, 0]);
    assert_eq!(&empty_columns[4..7], &[0b0111_1100u8, 0b1110_1111, 0b0000_0011]);
    assert_eq!(&empty_columns[7..], &[0u8; 25]);
}
