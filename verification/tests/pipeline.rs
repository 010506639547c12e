use solver::action_optimization::optimize::optimize;
use solver::board::{Board, BunkerSlot, CardType, NumberCard, NumberCardColor, SpecialCardType};
use solver::solving::benchmark::actions_correct;
use solver::solving::solve;

fn number(suit: NumberCardColor, value: u8) -> CardType {
    CardType::Number(NumberCard { suit, value })
}

/// The last nine number cards, stacked so that some have to step aside.
fn late_board() -> Board {
    let mut board = Board::default();
    board.hua_set = true;
    board.goal = [
        Some(NumberCard { suit: NumberCardColor::Black, value: 6 }),
        Some(NumberCard { suit: NumberCardColor::Red, value: 6 }),
        Some(NumberCard { suit: NumberCardColor::Green, value: 6 }),
    ];
    board.field[0] = vec![
        number(NumberCardColor::Red, 9),
        number(NumberCardColor::Black, 7),
        number(NumberCardColor::Red, 8),
    ];
    board.field[1] = vec![number(NumberCardColor::Black, 9)];
    board.field[2] = vec![
        number(NumberCardColor::Green, 9),
        number(NumberCardColor::Red, 7),
        number(NumberCardColor::Green, 8),
    ];
    board.field[3] = vec![
        number(NumberCardColor::Green, 7),
        number(NumberCardColor::Black, 8),
    ];
    board
}

/// The same cards with two free bunker slots, two dragon suits and the flower still in play.
fn late_board_with_dragons() -> Board {
    let mut board = late_board();
    board.bunker = [
        BunkerSlot::Empty,
        BunkerSlot::Empty,
        BunkerSlot::Blocked(Some(SpecialCardType::Fa)),
    ];
    board.field[4] = vec![
        CardType::Special(SpecialCardType::Zhong),
        CardType::Special(SpecialCardType::Bai),
        CardType::Special(SpecialCardType::Zhong),
        CardType::Special(SpecialCardType::Bai),
    ];
    board.field[5] = vec![
        CardType::Special(SpecialCardType::Bai),
        CardType::Special(SpecialCardType::Zhong),
    ];
    board.field[6] = vec![
        CardType::Special(SpecialCardType::Zhong),
        CardType::Special(SpecialCardType::Bai),
    ];
    board.hua_set = false;
    board.field[1].push(CardType::Hua);
    board
}

#[test]
fn solution_without_detours_keeps_its_length() {
    let board = late_board();
    assert_eq!(board.check(), Ok(()));
    let actions = solve(&board).expect("the board can be solved");
    assert_eq!(actions.len(), 10);
    assert!(actions_correct(&actions, board.duplicate()));
    let better = optimize(&actions).expect("the solution can be optimized");
    assert_eq!(better.len(), 10);
    assert!(actions_correct(&better, board.duplicate()));
}

#[test]
fn optimized_solution_still_solves_the_board() {
    let board = late_board_with_dragons();
    assert_eq!(board.check(), Ok(()));
    let actions = solve(&board).expect("the board can be solved");
    assert_eq!(actions.len(), 23);
    assert!(actions_correct(&actions, board.duplicate()));
    let better = optimize(&actions).expect("the solution can be optimized");
    assert_eq!(better.len(), 16);
    assert!(actions_correct(&better, board.duplicate()));
}

#[test]
fn optimizing_an_optimized_solution_changes_nothing() {
    let board = late_board_with_dragons();
    let actions = solve(&board).expect("the board can be solved");
    let once = optimize(&actions).expect("the solution can be optimized");
    let twice = optimize(&once).expect("the result can be optimized again");
    assert_eq!(twice, once);
}
