use solver::actions::Move;
use solver::board::{CardType, FieldPosition, NumberCard, NumberCardColor};

#[test]
fn move_storage() {
    let card_stack = vec![
        CardType::Number(NumberCard {
            value: 5,
            suit: NumberCardColor::Red,
        }),
        CardType::Number(NumberCard {
            value: 4,
            suit: NumberCardColor::Black,
        }),
        CardType::Number(NumberCard {
            value: 3,
            suit: NumberCardColor::Green,
        }),
    ];
    let source = FieldPosition::new(0, 0);
    let destination = FieldPosition::new(0, 1);
    let my_move = Move::new(source.clone(), destination.clone(), &card_stack);
    assert_eq!(my_move.cards(), card_stack);
    let my_move = Move::new(source, destination, &card_stack[0..1]);
    assert_eq!(
        my_move.cards().iter().collect::<Vec<_>>(),
        card_stack.iter().take(1).collect::<Vec<_>>()
    )
}
