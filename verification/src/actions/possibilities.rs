use vstd::prelude::*;
use crate::actions::base::{All, Bunkerize, DragonKill, Goal, HuaKill};
use crate::actions::move_action::{movable_stack, Move};
use crate::board::board_class::{dragon_at, spec_movable_cards, Board, BoardView};
use crate::board::cards::{CardType, CardTypeNoHua, NumberCard, NumberCardColor, SpecialCardType};
use crate::board::fieldposition::FieldPosition;
use crate::board::positions::{on_board, BunkerSlot, PositionNoGoal};

verus! {

/// The first of the first `count` bunker slots that is empty.
pub open spec fn first_empty_slot(bunker: Seq<BunkerSlot>, count: nat) -> Option<int>
    decreases count,
{
    if count == 0 {
        None
    } else {
        match first_empty_slot(bunker, (count - 1) as nat) {
            Some(slot) => Some(slot),
            None => if bunker[count - 1] is Empty {
                Some(count - 1)
            } else {
                None
            },
        }
    }
}

/// The first of the first `count` columns that is empty.
pub open spec fn first_empty_column(field: Seq<Seq<CardType>>, count: nat) -> Option<int>
    decreases count,
{
    if count == 0 {
        None
    } else {
        match first_empty_column(field, (count - 1) as nat) {
            Some(column) => Some(column),
            None => if field[count - 1].len() == 0 {
                Some(count - 1)
            } else {
                None
            },
        }
    }
}

/// The actions that put the top card of one of the first `count`
/// columns into the bunker slot `slot`; the flower never goes there.
pub open spec fn spec_bunkerize_upto(field: Seq<Seq<CardType>>, slot: int, count: nat) -> Seq<All>
    decreases count,
{
    if count == 0 {
        Seq::empty()
    } else {
        let before = spec_bunkerize_upto(field, slot, (count - 1) as nat);
        let column = field[count - 1];
        if column.len() > 0 && !(column.last() is Hua) {
            before.push(
                All::Bunkerize(
                    Bunkerize {
                        field_position: FieldPosition::at(count - 1, column.len() - 1),
                        card: column.last().without_hua(),
                        bunker_slot_index: slot as u8,
                        to_bunker: true,
                    },
                ),
            )
        } else {
            before
        }
    }
}

/// The actions that put a top card of the field into the first empty bunker slot.
pub open spec fn spec_bunkerize_actions(board: BoardView) -> Seq<All> {
    match first_empty_slot(board.bunker, 3) {
        Some(slot) => spec_bunkerize_upto(board.field, slot, 8),
        None => Seq::empty(),
    }
}

/// Whether `source` can lie on `dest`: it is of another suit and one rank lower.
pub open spec fn spec_card_fits(source: NumberCard, dest: NumberCard) -> bool {
    source.suit != dest.suit && source.value + 1 == dest.value
}

/// The cell on top of the first of the first `count` columns on whose
/// top card `card` can lie.
pub open spec fn spec_fitting_number_position(
    card: NumberCard,
    field: Seq<Seq<CardType>>,
    count: nat,
) -> Option<FieldPosition>
    decreases count,
{
    if count == 0 {
        None
    } else {
        match spec_fitting_number_position(card, field, (count - 1) as nat) {
            Some(position) => Some(position),
            None => {
                let column = field[count - 1];
                if column.len() > 0 && (column.last() matches CardType::Number(top)
                    && spec_card_fits(card, top)) {
                    Some(FieldPosition::at(count - 1, column.len() as int))
                } else {
                    None
                }
            },
        }
    }
}

/// The cells that `card` can go to: on top of the first column whose top
/// card it fits, and the bottom of the first empty column.
pub open spec fn spec_fitting_field_positions(card: CardType, field: Seq<Seq<CardType>>) -> Seq<
    FieldPosition,
> {
    (match card {
        CardType::Number(number_card) => match spec_fitting_number_position(number_card, field, 8) {
            Some(position) => seq![position],
            None => Seq::empty(),
        },
        _ => Seq::empty(),
    }) + (match first_empty_column(field, 8) {
        Some(column) => seq![FieldPosition::at(column, 0)],
        None => Seq::empty(),
    })
}

/// The actions that take a number card out of one of the first `count`
/// bunker slots onto a card that it fits.
pub open spec fn spec_debunkerize_fitting(board: BoardView, count: nat) -> Seq<All>
    decreases count,
{
    if count == 0 {
        Seq::empty()
    } else {
        let before = spec_debunkerize_fitting(board, (count - 1) as nat);
        match board.bunker[count - 1] {
            BunkerSlot::Stash(CardTypeNoHua::Number(card)) => match spec_fitting_number_position(
                card,
                board.field,
                8,
            ) {
                Some(field_position) => before.push(
                    All::Bunkerize(
                        Bunkerize {
                            card: CardTypeNoHua::Number(card),
                            field_position,
                            bunker_slot_index: (count - 1) as u8,
                            to_bunker: false,
                        },
                    ),
                ),
                None => before,
            },
            _ => before,
        }
    }
}

/// The actions that take a card out of one of the first `count` bunker
/// slots to the bottom of the column `column`.
pub open spec fn spec_debunkerize_empty(board: BoardView, column: int, count: nat) -> Seq<All>
    decreases count,
{
    if count == 0 {
        Seq::empty()
    } else {
        let before = spec_debunkerize_empty(board, column, (count - 1) as nat);
        match board.bunker[count - 1] {
            BunkerSlot::Stash(card) => before.push(
                All::Bunkerize(
                    Bunkerize {
                        card,
                        bunker_slot_index: (count - 1) as u8,
                        field_position: FieldPosition::at(column, 0),
                        to_bunker: false,
                    },
                ),
            ),
            _ => before,
        }
    }
}

/// The actions that take a card out of the bunker: onto a card that it
/// fits, then into the first empty column.
pub open spec fn spec_debunkerize_actions(board: BoardView) -> Seq<All> {
    spec_debunkerize_fitting(board, 3) + (match first_empty_column(board.field, 8) {
        Some(column) => spec_debunkerize_empty(board, column, 3),
        None => Seq::empty(),
    })
}

/// The places of the first four dragons of a kind among the cards,
/// and how many dragons of the kind there are.
pub open spec fn spec_dragon_places(
    cards: Seq<(PositionNoGoal, CardType)>,
    kind: SpecialCardType,
) -> (Seq<PositionNoGoal>, nat)
    decreases cards.len(),
{
    if cards.len() == 0 {
        (Seq::empty(), 0)
    } else {
        let (places, count) = spec_dragon_places(cards.drop_last(), kind);
        if cards.last().1 == CardType::Special(kind) {
            (
                if count < 4 {
                    places.push(cards.last().0)
                } else {
                    places
                },
                count + 1,
            )
        } else {
            (places, count)
        }
    }
}

/// The first of the first `count` bunker slots that is empty or holds a
/// dragon of the kind.
pub open spec fn spec_dragon_destination(bunker: Seq<BunkerSlot>, kind: SpecialCardType, count: nat)
    -> Option<int>
    decreases count,
{
    if count == 0 {
        None
    } else {
        match spec_dragon_destination(bunker, kind, (count - 1) as nat) {
            Some(slot) => Some(slot),
            None => if bunker[count - 1] is Empty || bunker[count - 1] == BunkerSlot::Stash(
                CardTypeNoHua::Special(kind),
            ) {
                Some(count - 1)
            } else {
                None
            },
        }
    }
}

/// The kill of a dragon kind, where exactly four dragons of the kind can
/// be taken and a bunker slot can take them.
pub open spec fn spec_dragonkill(board: BoardView, kind: SpecialCardType) -> Seq<All> {
    let (places, count) = spec_dragon_places(spec_movable_cards(board), kind);
    match spec_dragon_destination(board.bunker, kind, 3) {
        Some(slot) => if count == 4 {
            seq![
                All::DragonKill(
                    DragonKill {
                        card: kind,
                        source: [places[0], places[1], places[2], places[3]],
                        destination_slot_index: slot as u8,
                    },
                ),
            ]
        } else {
            Seq::empty()
        },
        None => Seq::empty(),
    }
}

/// The dragon kills that the board allows, by kind.
pub open spec fn spec_dragonkill_actions(board: BoardView) -> Seq<All> {
    spec_dragonkill(board, SpecialCardType::Zhong) + spec_dragonkill(board, SpecialCardType::Bai)
        + spec_dragonkill(board, SpecialCardType::Fa)
}

/// Whether the card at `place` of a column can lie on the card below it.
pub open spec fn lies_on_below(column: Seq<CardType>, place: int) -> bool {
    column[place] matches CardType::Number(card) && column[place - 1] matches CardType::Number(
        below,
    ) && spec_card_fits(card, below)
}

/// The number of cards on top of a column that can be moved as one, as
/// far as the first `limit` cards from the top go.
pub open spec fn spec_stack_count(column: Seq<CardType>, limit: nat) -> nat
    decreases limit,
{
    if limit == 0 || column.len() == 0 {
        0
    } else if limit == 1 {
        1
    } else {
        let shorter = spec_stack_count(column, (limit - 1) as nat);
        if shorter == limit - 1 && limit <= column.len() && lies_on_below(
            column,
            column.len() - limit + 1,
        ) {
            limit
        } else {
            shorter
        }
    }
}

/// The moves of the cards of the column `column` from the row `row`
/// upwards to the cells `positions`.
pub open spec fn spec_moves_to(
    field: Seq<Seq<CardType>>,
    column: int,
    row: int,
    positions: Seq<FieldPosition>,
) -> Seq<All> {
    Seq::new(
        positions.len(),
        |i: int|
            All::Move(
                Move::spec_new(
                    FieldPosition::at(column, row),
                    positions[i],
                    field[column].subrange(row, field[column].len() as int),
                ),
            ),
    )
}

/// The moves of the stacks of the column `column`, the tallest of the
/// topmost `stacks` stacks first: each stack goes to every cell that its
/// bottom card can go to.
pub open spec fn spec_column_moves(field: Seq<Seq<CardType>>, column: int, stacks: nat) -> Seq<All>
    decreases stacks,
{
    if stacks == 0 {
        Seq::empty()
    } else {
        let row = field[column].len() - stacks;
        spec_moves_to(
            field,
            column,
            row,
            spec_fitting_field_positions(field[column][row], field),
        ) + spec_column_moves(field, column, (stacks - 1) as nat)
    }
}

/// The moves of the stacks of the first `count` columns.
pub open spec fn spec_field_moves_upto(field: Seq<Seq<CardType>>, count: nat) -> Seq<All>
    decreases count,
{
    if count == 0 {
        Seq::empty()
    } else {
        spec_field_moves_upto(field, (count - 1) as nat) + spec_column_moves(
            field,
            count - 1,
            spec_stack_count(field[count - 1], 9),
        )
    }
}

/// The moves of a stack of cards from the top of one column to another:
/// a stack holds up to nine number cards, each of which fits the one below.
pub open spec fn spec_field_move_actions(board: BoardView) -> Seq<All> {
    spec_field_moves_upto(board.field, 8)
}

/// Whether the flower lies on top of one of the first `count` columns,
/// and where the first one does.
pub open spec fn spec_hua_position(field: Seq<Seq<CardType>>, count: nat) -> Option<FieldPosition>
    decreases count,
{
    if count == 0 {
        None
    } else {
        match spec_hua_position(field, (count - 1) as nat) {
            Some(position) => Some(position),
            None => {
                let column = field[count - 1];
                if column.len() > 0 && column.last() is Hua {
                    Some(FieldPosition::at(count - 1, column.len() - 1))
                } else {
                    None
                }
            },
        }
    }
}

/// The kill of the flower, where it lies on top of a column.
pub open spec fn spec_huakill_actions(board: BoardView) -> Seq<All> {
    match spec_hua_position(board.field, 8) {
        Some(field_position) => seq![All::HuaKill(HuaKill { field_position })],
        None => Seq::empty(),
    }
}

/// The first of the first `count` goal piles that is empty, or 3.
pub open spec fn first_empty_goal(goal: Seq<Option<NumberCard>>, count: nat) -> int
    decreases count,
{
    if count == 0 {
        3
    } else {
        let before = first_empty_goal(goal, (count - 1) as nat);
        if before != 3 {
            before
        } else if goal[count - 1] is None {
            count - 1
        } else {
            3
        }
    }
}

/// The rank that a suit needs next and the pile that it goes to, as far
/// as the first `count` piles say: the rank above the top card of the
/// last pile of the suit, or rank 1 on the first empty pile.
pub open spec fn spec_goal_wish(goal: Seq<Option<NumberCard>>, suit: NumberCardColor, count: nat)
    -> (int, int)
    decreases count,
{
    if count == 0 {
        (1, first_empty_goal(goal, 3))
    } else {
        match goal[count - 1] {
            Some(card) => if card.suit == suit {
                (card.value + 1, count - 1)
            } else {
                spec_goal_wish(goal, suit, (count - 1) as nat)
            },
            None => spec_goal_wish(goal, suit, (count - 1) as nat),
        }
    }
}

/// The goal actions among the first `count` of the cards that can be taken.
pub open spec fn spec_goal_upto(
    goal: Seq<Option<NumberCard>>,
    cards: Seq<(PositionNoGoal, CardType)>,
    count: nat,
) -> Seq<All>
    decreases count,
{
    if count == 0 {
        Seq::empty()
    } else {
        let before = spec_goal_upto(goal, cards, (count - 1) as nat);
        match cards[count - 1].1 {
            CardType::Number(card) => {
                let wish = spec_goal_wish(goal, card.suit, 3);
                if wish.0 == card.value {
                    before.push(
                        All::Goal(
                            Goal { card, source: cards[count - 1].0, goal_slot_index: wish.1 as u8 },
                        ),
                    )
                } else {
                    before
                }
            },
            _ => before,
        }
    }
}

/// The actions that send a card to its goal pile.
pub open spec fn spec_goal_move_actions(board: BoardView) -> Seq<All> {
    spec_goal_upto(
        board.goal,
        spec_movable_cards(board),
        spec_movable_cards(board).len(),
    )
}

/// The actions that put the top card of a column into the first empty
/// bunker slot.
#[must_use]
pub fn bunkerize_actions(solboard: &Board) -> (result: Vec<All>)
    ensures
        result@ == spec_bunkerize_actions(solboard@),
        forall|i: int| 0 <= i < result@.len() ==> (#[trigger] result@[i]).fits(solboard@),
        result@.len() <= 8,
{
    let mut first_empty_bunker_index: Option<u8> = None;
    let mut slot: u8 = 0;
    while slot < 3
        invariant
            slot <= 3,
            (match first_empty_bunker_index {
                Some(index) => Some(index as int),
                None => None,
            }) == first_empty_slot(solboard@.bunker, slot as nat),
            first_empty_bunker_index matches Some(index) ==> index < 3,
        decreases 3 - slot,
    {
        if first_empty_bunker_index.is_none() {
            if let BunkerSlot::Empty = solboard.bunker[slot as usize] {
                first_empty_bunker_index = Some(slot);
            }
        }
        slot = slot + 1;
    }
    let mut result: Vec<All> = Vec::new();
    if let Some(first_empty_bunker_index) = first_empty_bunker_index {
        let mut index: u8 = 0;
        while index < 8
            invariant
                index <= 8,
                first_empty_bunker_index < 3,
                result@ == spec_bunkerize_upto(
                    solboard@.field,
                    first_empty_bunker_index as int,
                    index as nat,
                ),
                forall|i: int| 0 <= i < result@.len() ==> (#[trigger] result@[i]).fits(solboard@),
                result@.len() <= index,
            decreases 8 - index,
        {
            let row = &solboard.field[index as usize];
            if row.len() > 0 {
                let card = row[row.len() - 1];
                match card {
                    CardType::Hua => {},
                    _ => {
                        proof {
                            lemma_at_row(index as int, row@.len() - 1);
                        }
                        let field_position = FieldPosition::new(
                            index,
                            ((row.len() - 1) % 256) as u8,
                        );
                        result.push(
                            All::Bunkerize(
                                Bunkerize {
                                    field_position,
                                    card: card.remove_hua(),
                                    bunker_slot_index: first_empty_bunker_index,
                                    to_bunker: true,
                                },
                            ),
                        );
                    },
                }
            }
            index = index + 1;
        }
    }
    result
}

/// A row that is given modulo 256 names the same cell, and a column below
/// 8 is kept.
pub proof fn lemma_at_row(column: int, row: int)
    requires
        0 <= row,
        0 <= column < 8,
    ensures
        FieldPosition::at(column, row % 256) == FieldPosition::at(column, row),
        FieldPosition::at(column, row).spec_column() == column,
{
    FieldPosition::lemma_at(column, row);
    FieldPosition::lemma_at(column, row % 256);
    FieldPosition::at(column, row).lemma_parts();
    FieldPosition::at(column, row % 256).lemma_parts();
    assert((row % 256) % 16 == row % 16);
}

/// Whether `source` can lie on `dest`: it is of another suit and one rank lower.
pub fn card_fits(source: &NumberCard, dest: &NumberCard) -> (result: bool)
    ensures
        result == spec_card_fits(*source, *dest),
{
    (source.suit != dest.suit) && source.value < u8::MAX && (source.value + 1 == dest.value)
}

/// The cell on top of the first column on whose top card `card` can lie.
pub fn fitting_field_number_position(card: &NumberCard, board: &Board) -> (result: Option<
    FieldPosition,
>)
    ensures
        result == spec_fitting_number_position(*card, board@.field, 8),
        result matches Some(position) ==> position.spec_column() < 8,
{
    let mut index: u8 = 0;
    while index < 8
        invariant
            index <= 8,
            spec_fitting_number_position(*card, board@.field, index as nat) is None,
        decreases 8 - index,
    {
        let row = &board.field[index as usize];
        if row.len() > 0 {
            if let CardType::Number(top_card) = row[row.len() - 1] {
                if card_fits(card, &top_card) {
                    proof {
                        lemma_at_row(index as int, row@.len() as int);
                        lemma_fitting_stays(*card, board@.field, index as nat + 1, 8);
                    }
                    return Some(FieldPosition::new(index, (row.len() % 256) as u8));
                }
            }
        }
        index = index + 1;
    }
    None
}

proof fn lemma_fitting_stays(card: NumberCard, field: Seq<Seq<CardType>>, count: nat, upto: nat)
    requires
        count <= upto,
        spec_fitting_number_position(card, field, count) is Some,
    ensures
        spec_fitting_number_position(card, field, upto) == spec_fitting_number_position(
            card,
            field,
            count,
        ),
    decreases upto - count,
{
    if count < upto {
        lemma_fitting_stays(card, field, count + 1, upto);
    }
}

proof fn lemma_empty_column_stays(field: Seq<Seq<CardType>>, count: nat, upto: nat)
    requires
        count <= upto,
        first_empty_column(field, count) is Some,
    ensures
        first_empty_column(field, upto) == first_empty_column(field, count),
    decreases upto - count,
{
    if count < upto {
        lemma_empty_column_stays(field, count + 1, upto);
    }
}

/// The first empty column, if there is one.
pub fn empty_column(board: &Board) -> (result: Option<u8>)
    ensures
        (match result {
            Some(column) => Some(column as int),
            None => None,
        }) == first_empty_column(board@.field, 8),
        result matches Some(column) ==> column < 8,
{
    let mut index: u8 = 0;
    while index < 8
        invariant
            index <= 8,
            first_empty_column(board@.field, index as nat) is None,
        decreases 8 - index,
    {
        if board.field[index as usize].len() == 0 {
            proof {
                lemma_empty_column_stays(board@.field, index as nat + 1, 8);
            }
            return Some(index);
        }
        index = index + 1;
    }
    None
}

/// The cells that `card` can go to.
pub fn fitting_field_positions(card: &CardType, board: &Board) -> (result: Vec<FieldPosition>)
    ensures
        result@ == spec_fitting_field_positions(*card, board@.field),
        forall|i: int| 0 <= i < result@.len() ==> (#[trigger] result@[i]).spec_column() < 8,
        result@.len() <= 2,
{
    let mut result: Vec<FieldPosition> = Vec::new();
    if let CardType::Number(card) = card {
        if let Some(position) = fitting_field_number_position(card, board) {
            result.push(position);
        }
    }
    if let Some(column) = empty_column(board) {
        proof {
            lemma_at_row(column as int, 0);
        }
        result.push(FieldPosition::new(column, 0));
    }
    result
}

/// The actions that take a card out of the bunker.
#[must_use]
pub fn debunkerize_actions(solboard: &Board) -> (result: Vec<All>)
    ensures
        result@ == spec_debunkerize_actions(solboard@),
        forall|i: int| 0 <= i < result@.len() ==> (#[trigger] result@[i]).fits(solboard@),
        result@.len() <= 6,
{
    let mut result: Vec<All> = Vec::new();
    let mut bunker_slot_index: u8 = 0;
    while bunker_slot_index < 3
        invariant
            bunker_slot_index <= 3,
            result@ == spec_debunkerize_fitting(solboard@, bunker_slot_index as nat),
            forall|i: int| 0 <= i < result@.len() ==> (#[trigger] result@[i]).fits(solboard@),
            result@.len() <= bunker_slot_index,
        decreases 3 - bunker_slot_index,
    {
        if let BunkerSlot::Stash(CardTypeNoHua::Number(card)) =
            solboard.bunker[bunker_slot_index as usize] {
            if let Some(field_position) = fitting_field_number_position(&card, solboard) {
                result.push(
                    All::Bunkerize(
                        Bunkerize {
                            card: CardTypeNoHua::Number(card),
                            field_position,
                            bunker_slot_index,
                            to_bunker: false,
                        },
                    ),
                );
            }
        }
        bunker_slot_index = bunker_slot_index + 1;
    }
    if let Some(column) = empty_column(solboard) {
        proof {
            lemma_at_row(column as int, 0);
        }
        let field_position = FieldPosition::new(column, 0);
        let ghost fitting = result@;
        let mut bunker_slot_index: u8 = 0;
        while bunker_slot_index < 3
            invariant
                bunker_slot_index <= 3,
                fitting.len() <= 3,
                field_position == FieldPosition::at(column as int, 0),
                field_position.spec_column() < 8,
                result@ == fitting + spec_debunkerize_empty(
                    solboard@,
                    column as int,
                    bunker_slot_index as nat,
                ),
                forall|i: int| 0 <= i < result@.len() ==> (#[trigger] result@[i]).fits(solboard@),
                result@.len() <= 3 + bunker_slot_index,
            decreases 3 - bunker_slot_index,
        {
            if let BunkerSlot::Stash(card) = solboard.bunker[bunker_slot_index as usize] {
                result.push(
                    All::Bunkerize(
                        Bunkerize { card, bunker_slot_index, field_position, to_bunker: false },
                    ),
                );
                assert(result@ =~= fitting + spec_debunkerize_empty(
                    solboard@,
                    column as int,
                    (bunker_slot_index + 1) as nat,
                ));
            }
            bunker_slot_index = bunker_slot_index + 1;
        }
    }
    result
}

/// Where the dragons of each kind lie, as far as they can be taken.
pub struct DragonTracker {
    dragons: [(u8, [PositionNoGoal; 4]); 3],
}

impl DragonTracker {
    /// How many dragons of the kind with the ordinal `id` were seen, up to 5.
    pub closed spec fn count(self, id: int) -> int {
        self.dragons[id].0 as int
    }

    /// The places of the first four dragons of the kind with the ordinal `id`.
    pub closed spec fn places(self, id: int) -> Seq<PositionNoGoal> {
        self.dragons[id].1@.take(if self.count(id) < 4 {
            self.count(id)
        } else {
            4
        })
    }

    /// What holds of every tracker.
    pub closed spec fn wf(self) -> bool {
        forall|id: int| 0 <= id < 3 ==> 0 <= #[trigger] self.dragons[id].0 <= 5
    }

    /// A tracker that has seen no dragon.
    pub fn new() -> (result: Self)
        ensures
            result.wf(),
            forall|id: int| 0 <= id < 3 ==> #[trigger] result.count(id) == 0,
            forall|id: int| 0 <= id < 3 ==> #[trigger] result.places(id) == Seq::<
                PositionNoGoal,
            >::empty(),
    {
        let result = Self { dragons: [(0, [PositionNoGoal::Bunker { slot_index: 0 };4]);3] };
        assert forall|id: int| 0 <= id < 3 implies #[trigger] result.places(id) == Seq::<
            PositionNoGoal,
        >::empty() by {
            assert(result.places(id) =~= Seq::<PositionNoGoal>::empty());
        }
        result
    }

    /// The ordinal of a dragon kind.
    pub fn dragon_to_id(dragon: &SpecialCardType) -> (result: u8)
        ensures
            result == dragon.ordinal(),
            result < 3,
    {
        match dragon {
            SpecialCardType::Zhong => 0,
            SpecialCardType::Bai => 1,
            SpecialCardType::Fa => 2,
        }
    }

    /// The dragon kind with an ordinal.
    pub fn id_to_dragon(id: u8) -> (result: SpecialCardType)
        requires
            id < 3,
        ensures
            result.ordinal() == id,
    {
        if id == 0 {
            SpecialCardType::Zhong
        } else if id == 1 {
            SpecialCardType::Bai
        } else {
            SpecialCardType::Fa
        }
    }

    /// Notes one more dragon of a kind; the place of a fifth one is not kept.
    pub fn push(&mut self, dragon: &SpecialCardType, position: PositionNoGoal)
        requires
            old(self).wf(),
        ensures
            final(self).wf(),
            forall|id: int|
                0 <= id < 3 && id != dragon.ordinal() ==> #[trigger] final(self).count(id) == old(
                    self,
                ).count(id) && final(self).places(id) == old(self).places(id),
            final(self).count(dragon.ordinal()) == (if old(self).count(dragon.ordinal()) < 5 {
                old(self).count(dragon.ordinal()) + 1
            } else {
                5
            }),
            final(self).places(dragon.ordinal()) == (if old(self).count(dragon.ordinal()) < 4 {
                old(self).places(dragon.ordinal()).push(position)
            } else {
                old(self).places(dragon.ordinal())
            }),
    {
        let id = Self::dragon_to_id(dragon) as usize;
        let (count, mut cell) = self.dragons[id];
        if count < 4 {
            cell[count as usize] = position;
        }
        let counted: u8 = if count < 5 {
            count + 1
        } else {
            5
        };
        self.dragons[id] = (counted, cell);
        proof {
            assert(self.places(id as int) =~= (if old(self).count(id as int) < 4 {
                old(self).places(id as int).push(position)
            } else {
                old(self).places(id as int)
            }));
            assert forall|other: int| 0 <= other < 3 && other != id implies #[trigger] self.count(
                other,
            ) == old(self).count(other) && self.places(other) == old(self).places(other) by {
                assert(self.dragons[other] == old(self).dragons[other]);
            }
        }
    }

    /// The places of the four dragons of a kind, if exactly four were seen.
    pub fn found(&self, id: u8) -> (result: Option<[PositionNoGoal; 4]>)
        requires
            id < 3,
            self.wf(),
        ensures
            match result {
                Some(places) => self.count(id as int) == 4 && places@ == self.places(id as int),
                None => self.count(id as int) != 4,
            },
    {
        let (count, positions) = self.dragons[id as usize];
        if count == 4 {
            assert(positions@.take(4) =~= positions@);
            Some(positions)
        } else {
            None
        }
    }

    /// The kinds of which exactly four dragons were seen, with their places.
    pub fn found_dragons(&self) -> (result: Vec<(SpecialCardType, [PositionNoGoal; 4])>)
        requires
            self.wf(),
        ensures
            result@.len() <= 3,
            forall|i: int|
                0 <= i < result@.len() ==> self.count((#[trigger] result@[i]).0.ordinal()) == 4
                    && result@[i].1@ == self.places(result@[i].0.ordinal()),
            forall|i: int, j: int|
                0 <= i < j < result@.len() ==> result@[i].0.ordinal() < result@[j].0.ordinal(),
            forall|id: int|
                0 <= id < 3 && self.count(id) == 4 ==> exists|i: int|
                    0 <= i < result@.len() && (#[trigger] result@[i]).0.ordinal() == id,
    {
        let mut result: Vec<(SpecialCardType, [PositionNoGoal; 4])> = Vec::new();
        let mut index: u8 = 0;
        while index < 3
            invariant
                index <= 3,
                self.wf(),
                result@.len() <= index,
                forall|i: int|
                    0 <= i < result@.len() ==> self.count((#[trigger] result@[i]).0.ordinal()) == 4
                        && result@[i].1@ == self.places(result@[i].0.ordinal())
                        && result@[i].0.ordinal() < index,
                forall|i: int, j: int|
                    0 <= i < j < result@.len() ==> result@[i].0.ordinal() < result@[j].0.ordinal(),
                forall|id: int|
                    0 <= id < index && self.count(id) == 4 ==> exists|i: int|
                        0 <= i < result@.len() && (#[trigger] result@[i]).0.ordinal() == id,
            decreases 3 - index,
        {
            if let Some(positions) = self.found(index) {
                let ghost before = result@;
                result.push((Self::id_to_dragon(index), positions));
                assert forall|id: int| 0 <= id < index + 1 && self.count(id) == 4 implies exists|
                    i: int,
                |
                    0 <= i < result@.len() && (#[trigger] result@[i]).0.ordinal() == id by {
                    if id < index {
                        let i = choose|i: int|
                            0 <= i < before.len() && (#[trigger] before[i]).0.ordinal() == id;
                        assert(result@[i].0.ordinal() == id);
                    } else {
                        assert(result@[before.len() as int].0.ordinal() == id);
                    }
                }
            }
            index = index + 1;
        }
        result
    }
}

/// Whether a tracker has noted the dragons of the kind with the ordinal
/// `id` among the cards.
pub open spec fn tracks(tracker: DragonTracker, cards: Seq<(PositionNoGoal, CardType)>, id: int)
    -> bool {
    let seen = spec_dragon_places(cards, dragon_at(id));
    &&& tracker.places(id) == seen.0
    &&& tracker.count(id) == (if seen.1 < 5 {
        seen.1 as int
    } else {
        5
    })
    &&& seen.0.len() == (if seen.1 < 4 {
        seen.1
    } else {
        4
    })
    &&& forall|k: int| 0 <= k < seen.0.len() ==> on_board(#[trigger] seen.0[k])
}

fn dragon_destination(solboard: &Board, card_type: &SpecialCardType) -> (result: Option<u8>)
    ensures
        (match result {
            Some(slot) => Some(slot as int),
            None => None,
        }) == spec_dragon_destination(solboard@.bunker, *card_type, 3),
        result matches Some(slot) ==> slot < 3,
{
    let mut slot: u8 = 0;
    while slot < 3
        invariant
            slot <= 3,
            spec_dragon_destination(solboard@.bunker, *card_type, slot as nat) is None,
        decreases 3 - slot,
    {
        let fits = match solboard.bunker[slot as usize] {
            BunkerSlot::Empty => true,
            BunkerSlot::Stash(CardTypeNoHua::Special(special_card_type)) => special_card_type
                == *card_type,
            _ => false,
        };
        if fits {
            proof {
                lemma_dragon_destination_stays(solboard@.bunker, *card_type, slot as nat + 1, 3);
            }
            return Some(slot);
        }
        slot = slot + 1;
    }
    None
}

proof fn lemma_dragon_destination_stays(
    bunker: Seq<BunkerSlot>,
    kind: SpecialCardType,
    count: nat,
    upto: nat,
)
    requires
        count <= upto,
        spec_dragon_destination(bunker, kind, count) is Some,
    ensures
        spec_dragon_destination(bunker, kind, upto) == spec_dragon_destination(bunker, kind, count),
    decreases upto - count,
{
    if count < upto {
        lemma_dragon_destination_stays(bunker, kind, count + 1, upto);
    }
}

/// The dragon kills that the board allows.
#[must_use]
pub fn dragonkill_actions(solboard: &Board) -> (result: Vec<All>)
    ensures
        result@ == spec_dragonkill_actions(solboard@),
        forall|i: int| 0 <= i < result@.len() ==> (#[trigger] result@[i]).fits(solboard@),
        result@.len() <= 3,
{
    let mut dragon_position = DragonTracker::new();
    let cards = solboard.movable_cards();
    let mut i: usize = 0;
    assert(cards@.subrange(0, 0) =~= Seq::<(PositionNoGoal, CardType)>::empty());
    while i < cards.len()
        invariant
            i <= cards@.len(),
            dragon_position.wf(),
            cards@ == spec_movable_cards(solboard@),
            forall|k: int| 0 <= k < cards@.len() ==> on_board((#[trigger] cards@[k]).0),
            tracks(dragon_position, cards@.subrange(0, i as int), 0),
            tracks(dragon_position, cards@.subrange(0, i as int), 1),
            tracks(dragon_position, cards@.subrange(0, i as int), 2),
        decreases cards@.len() - i,
    {
        let (position, card) = cards[i];
        proof {
            assert(cards@.subrange(0, i as int + 1).drop_last() =~= cards@.subrange(0, i as int));
            assert(cards@.subrange(0, i as int + 1).last() == cards@[i as int]);
            assert(on_board(cards@[i as int].0));
        }
        if let CardType::Special(card) = card {
            dragon_position.push(&card, position);
        }
        i = i + 1;
    }
    assert(cards@.subrange(0, cards@.len() as int) =~= cards@);
    let mut result: Vec<All> = Vec::new();
    let mut kind: u8 = 0;
    while kind < 3
        invariant
            kind <= 3,
            dragon_position.wf(),
            cards@ == spec_movable_cards(solboard@),
            tracks(dragon_position, cards@, 0),
            tracks(dragon_position, cards@, 1),
            tracks(dragon_position, cards@, 2),
            result@ == (if kind == 0 {
                Seq::<All>::empty()
            } else if kind == 1 {
                spec_dragonkill(solboard@, SpecialCardType::Zhong)
            } else if kind == 2 {
                spec_dragonkill(solboard@, SpecialCardType::Zhong) + spec_dragonkill(
                    solboard@,
                    SpecialCardType::Bai,
                )
            } else {
                spec_dragonkill_actions(solboard@)
            }),
            forall|i: int| 0 <= i < result@.len() ==> (#[trigger] result@[i]).fits(solboard@),
            result@.len() <= kind,
        decreases 3 - kind,
    {
        let card_type = DragonTracker::id_to_dragon(kind);
        assert(card_type == dragon_at(kind as int));
        assert(tracks(dragon_position, cards@, kind as int));
        let ghost before = result@;
        let ghost places = dragon_position.places(kind as int);
        if let Some(positions) = dragon_position.found(kind) {
            if let Some(dragon_destination) = dragon_destination(solboard, &card_type) {
                let action = DragonKill {
                    card: card_type,
                    source: positions,
                    destination_slot_index: dragon_destination,
                };
                proof {
                    assert(positions@ =~= [places[0], places[1], places[2], places[3]]@);
                    assert(positions == [places[0], places[1], places[2], places[3]]);
                    assert forall|k: int| 0 <= k < 4 implies on_board(
                        #[trigger] action.source[k],
                    ) by {
                        assert(action.source[k] == places[k]);
                    }
                }
                result.push(All::DragonKill(action));
            }
        }
        proof {
            assert(result@ =~= before + spec_dragonkill(solboard@, card_type));
        }
        kind = kind + 1;
    }
    result
}

/// The kill of the flower, where it lies on top of a column.
#[must_use]
pub fn huakill_actions(solboard: &Board) -> (result: Vec<All>)
    ensures
        result@ == spec_huakill_actions(solboard@),
        forall|i: int| 0 <= i < result@.len() ==> (#[trigger] result@[i]).fits(solboard@),
        result@.len() <= 1,
{
    let mut slot_id: u8 = 0;
    while slot_id < 8
        invariant
            slot_id <= 8,
            spec_hua_position(solboard@.field, slot_id as nat) is None,
        decreases 8 - slot_id,
    {
        let field_column = &solboard.field[slot_id as usize];
        if field_column.len() > 0 {
            if let CardType::Hua = field_column[field_column.len() - 1] {
                proof {
                    lemma_at_row(slot_id as int, field_column@.len() - 1);
                    lemma_hua_stays(solboard@.field, slot_id as nat + 1, 8);
                }
                return vec![
                    All::HuaKill(
                        HuaKill {
                            field_position: FieldPosition::new(
                                slot_id,
                                ((field_column.len() - 1) % 256) as u8,
                            ),
                        },
                    ),
                ];
            }
        }
        slot_id = slot_id + 1;
    }
    Vec::new()
}

proof fn lemma_hua_stays(field: Seq<Seq<CardType>>, count: nat, upto: nat)
    requires
        count <= upto,
        spec_hua_position(field, count) is Some,
    ensures
        spec_hua_position(field, upto) == spec_hua_position(field, count),
    decreases upto - count,
{
    if count < upto {
        lemma_hua_stays(field, count + 1, upto);
    }
}

/// The topmost `spec_stack_count` cards of a column lie each on the one below.
pub proof fn lemma_stack_count(column: Seq<CardType>, limit: nat)
    ensures
        spec_stack_count(column, limit) <= limit,
        spec_stack_count(column, limit) <= column.len(),
        column.len() > 0 && limit > 0 ==> spec_stack_count(column, limit) >= 1,
        forall|place: int|
            column.len() - spec_stack_count(column, limit) < place < column.len()
                ==> #[trigger] lies_on_below(column, place),
    decreases limit,
{
    if limit > 1 && column.len() > 0 {
        lemma_stack_count(column, (limit - 1) as nat);
    }
}

/// The topmost cards of a column that lie each on the one below can be
/// moved as one, and so can fewer of them.
pub proof fn lemma_stack_movable(column: Seq<CardType>, row: int)
    requires
        0 <= row < column.len(),
        column.len() - row <= 9,
        forall|place: int| row < place < column.len() ==> #[trigger] lies_on_below(column, place),
    ensures
        movable_stack(column.subrange(row, column.len() as int)),
{
    let stack = column.subrange(row, column.len() as int);
    if stack.len() > 1 {
        assert forall|i: int| 0 <= i < stack.len() implies #[trigger] stack[i] is Number by {
            if i > 0 {
                assert(lies_on_below(column, row + i));
            } else {
                assert(lies_on_below(column, row + 1));
            }
        }
        assert forall|i: int| 0 <= i < stack.len() - 1 implies {
            &&& (#[trigger] stack[i + 1])->Number_0.value + 1 == stack[i]->Number_0.value
            &&& stack[i + 1]->Number_0.suit != stack[i]->Number_0.suit
        } by {
            assert(lies_on_below(column, row + i + 1));
        }
    }
}

/// The number of cards on top of each column that can be moved as one, up to nine.
pub fn get_max_stack_count(board: &Board) -> (result: [u8; 8])
    ensures
        forall|i: int|
            0 <= i < 8 ==> #[trigger] result[i] == spec_stack_count(board@.field[i], 9),
{
    let mut result: [u8; 8] = [0;8];
    let mut index: usize = 0;
    while index < 8
        invariant
            index <= 8,
            forall|i: int|
                0 <= i < index ==> #[trigger] result[i] == spec_stack_count(board@.field[i], 9),
        decreases 8 - index,
    {
        let row = &board.field[index];
        let mut count: u8 = 0;
        if row.len() > 0 {
            count = 1;
            let mut stopped = false;
            while count < 9 && !stopped
                invariant
                    1 <= count <= 9,
                    row@.len() > 0,
                    count == spec_stack_count(row@, count as nat),
                    stopped ==> count < 9 && spec_stack_count(row@, (count + 1) as nat) == count,
                decreases 9 - count + (if stopped { 0int } else { 1int }),
            {
                let mut fits = false;
                if (count as usize) < row.len() {
                    let place = row.len() - count as usize;
                    if let CardType::Number(card) = row[place] {
                        if let CardType::Number(bottom_card) = row[place - 1] {
                            fits = card_fits(&card, &bottom_card);
                        }
                    }
                }
                if fits {
                    count = count + 1;
                } else {
                    stopped = true;
                }
            }
            proof {
                if stopped {
                    lemma_stack_count_stops(row@, count as nat, 9);
                }
            }
        }
        result[index] = count;
        index = index + 1;
    }
    result
}

proof fn lemma_stack_count_stops(column: Seq<CardType>, count: nat, limit: nat)
    requires
        count < limit,
        spec_stack_count(column, count + 1) == count,
    ensures
        spec_stack_count(column, limit) == count,
    decreases limit - count,
{
    if count + 1 < limit {
        lemma_stack_count_stops_at(column, count, count + 1, limit);
    }
}

proof fn lemma_stack_count_stops_at(column: Seq<CardType>, count: nat, from: nat, limit: nat)
    requires
        count < from <= limit,
        spec_stack_count(column, from) == count,
    ensures
        spec_stack_count(column, limit) == count,
    decreases limit - from,
{
    if from < limit {
        assert(spec_stack_count(column, from + 1) == count);
        lemma_stack_count_stops_at(column, count, from + 1, limit);
    }
}

/// The moves of a stack of cards from the top of one column to another.
#[must_use]
pub fn field_move_actions(solboard: &Board) -> (result: Vec<All>)
    ensures
        result@ == spec_field_move_actions(solboard@),
        forall|i: int| 0 <= i < result@.len() ==> (#[trigger] result@[i]).fits(solboard@),
{
    let max_stack_counts = get_max_stack_count(solboard);
    let mut result: Vec<All> = Vec::new();
    let mut column_index: u8 = 0;
    while column_index < 8
        invariant
            column_index <= 8,
            forall|i: int|
                0 <= i < 8 ==> #[trigger] max_stack_counts[i] == spec_stack_count(
                    solboard@.field[i],
                    9,
                ),
            result@ == spec_field_moves_upto(solboard@.field, column_index as nat),
            forall|i: int| 0 <= i < result@.len() ==> (#[trigger] result@[i]).fits(solboard@),
        decreases 8 - column_index,
    {
        let row = &solboard.field[column_index as usize];
        let stack_size = max_stack_counts[column_index as usize] as usize;
        let ghost before = result@;
        proof {
            lemma_stack_count(row@, 9);
        }
        let mut taken: usize = stack_size;
        assert(result@ =~= before + Seq::<All>::empty());
        while taken > 0
            invariant
                taken <= stack_size <= row@.len(),
                stack_size <= 9,
                column_index < 8,
                row@ == solboard@.field[column_index as int],
                forall|place: int|
                    row@.len() - stack_size < place < row@.len() ==> #[trigger] lies_on_below(
                        row@,
                        place,
                    ),
                result@ + spec_column_moves(solboard@.field, column_index as int, taken as nat)
                    == before + spec_column_moves(
                    solboard@.field,
                    column_index as int,
                    stack_size as nat,
                ),
                forall|i: int| 0 <= i < result@.len() ==> (#[trigger] result@[i]).fits(solboard@),
            decreases taken,
        {
            let row_index = row.len() - taken;
            let my_stack = vstd::slice::slice_subrange(row.as_slice(), row_index, row.len());
            let positions = fitting_field_positions(&row[row_index], solboard);
            let source = FieldPosition::new(column_index, (row_index % 256) as u8);
            proof {
                lemma_at_row(column_index as int, row_index as int);
                lemma_stack_movable(row@, row_index as int);
            }
            let ghost wanted = spec_moves_to(
                solboard@.field,
                column_index as int,
                row_index as int,
                positions@,
            );
            let ghost so_far = result@;
            let mut i: usize = 0;
            while i < positions.len()
                invariant
                    i <= positions@.len(),
                    movable_stack(my_stack@),
                    my_stack@ == row@.subrange(row_index as int, row@.len() as int),
                    row@ == solboard@.field[column_index as int],
                    row_index + taken == row@.len(),
                    taken >= 1,
                    column_index < 8,
                    source == FieldPosition::at(column_index as int, row_index as int),
                    source.spec_column() == column_index,
                    forall|k: int|
                        0 <= k < positions@.len() ==> (#[trigger] positions@[k]).spec_column() < 8,
                    wanted == spec_moves_to(
                        solboard@.field,
                        column_index as int,
                        row_index as int,
                        positions@,
                    ),
                    result@ == so_far + wanted.subrange(0, i as int),
                    forall|k: int|
                        0 <= k < result@.len() ==> (#[trigger] result@[k]).fits(solboard@),
                decreases positions@.len() - i,
            {
                let action = Move::new(source, positions[i], my_stack);
                result.push(All::Move(action));
                assert(result@ =~= so_far + wanted.subrange(0, i as int + 1));
                i = i + 1;
            }
            proof {
                assert(wanted.subrange(0, wanted.len() as int) =~= wanted);
                assert(result@ + spec_column_moves(
                    solboard@.field,
                    column_index as int,
                    (taken - 1) as nat,
                ) =~= so_far + spec_column_moves(
                    solboard@.field,
                    column_index as int,
                    taken as nat,
                ));
            }
            taken = taken - 1;
        }
        assert(result@ =~= before + spec_column_moves(
            solboard@.field,
            column_index as int,
            stack_size as nat,
        ));
        column_index = column_index + 1;
    }
    result
}

fn suit_to_id(suit: &NumberCardColor) -> (result: usize)
    ensures
        result == suit.ordinal(),
        result < 3,
{
    match suit {
        NumberCardColor::Red => 0,
        NumberCardColor::Green => 1,
        NumberCardColor::Black => 2,
    }
}

/// The rank that a suit needs next and the goal pile that it goes to.
pub fn goal_wish(solboard: &Board, suit: &NumberCardColor) -> (result: (u16, u8))
    ensures
        result.0 == spec_goal_wish(solboard@.goal, *suit, 3).0,
        result.1 == spec_goal_wish(solboard@.goal, *suit, 3).1,
        result.1 <= 3,
{
    let mut first_empty_goal_slot_index: u8 = 3;
    let mut index: u8 = 0;
    while index < 3
        invariant
            index <= 3,
            first_empty_goal_slot_index <= 3,
            first_empty_goal_slot_index == first_empty_goal(solboard@.goal, index as nat),
        decreases 3 - index,
    {
        if first_empty_goal_slot_index == 3 && solboard.goal[index as usize].is_none() {
            first_empty_goal_slot_index = index;
        }
        index = index + 1;
    }
    let mut result: (u16, u8) = (1, first_empty_goal_slot_index);
    let mut slot_id: u8 = 0;
    while slot_id < 3
        invariant
            slot_id <= 3,
            first_empty_goal_slot_index == first_empty_goal(solboard@.goal, 3),
            result.0 == spec_goal_wish(solboard@.goal, *suit, slot_id as nat).0,
            result.1 == spec_goal_wish(solboard@.goal, *suit, slot_id as nat).1,
            result.1 <= 3,
        decreases 3 - slot_id,
    {
        if let Some(card) = solboard.goal[slot_id as usize] {
            if card.suit == *suit {
                result = (card.value as u16 + 1, slot_id);
            }
        }
        slot_id = slot_id + 1;
    }
    result
}

/// The actions that send a card to its goal pile.
#[must_use]
pub fn goal_move_actions(solboard: &Board) -> (result: Vec<All>)
    ensures
        result@ == spec_goal_move_actions(solboard@),
        result@.len() <= 11,
{
    let mut result: Vec<All> = Vec::new();
    let cards = solboard.movable_cards();
    let mut i: usize = 0;
    while i < cards.len()
        invariant
            i <= cards@.len(),
            cards@ == spec_movable_cards(solboard@),
            cards@.len() <= 11,
            result@ == spec_goal_upto(solboard@.goal, cards@, i as nat),
            result@.len() <= i,
        decreases cards@.len() - i,
    {
        let (position, card) = cards[i];
        if let CardType::Number(card) = card {
            let wish = goal_wish(solboard, &card.suit);
            if wish.0 == card.value as u16 {
                result.push(All::Goal(Goal { card, source: position, goal_slot_index: wish.1 }));
            }
        }
        i = i + 1;
    }
    result
}

/// Every action that the board allows: the flower kill, the dragon
/// kills, the goal actions, the actions out of the bunker, the moves and
/// the actions into the bunker.
pub open spec fn spec_all_actions(board: BoardView) -> Seq<All> {
    spec_huakill_actions(board) + spec_dragonkill_actions(board) + spec_goal_move_actions(board)
        + spec_debunkerize_actions(board) + spec_field_move_actions(board) + spec_bunkerize_actions(
        board,
    )
}

fn append_actions(result: &mut Vec<All>, more: &Vec<All>)
    ensures
        final(result)@ == old(result)@ + more@,
{
    let mut i: usize = 0;
    assert(result@ =~= old(result)@ + more@.subrange(0, 0));
    while i < more.len()
        invariant
            i <= more@.len(),
            result@ == old(result)@ + more@.subrange(0, i as int),
        decreases more@.len() - i,
    {
        result.push(more[i]);
        assert(result@ =~= old(result)@ + more@.subrange(0, i as int + 1));
        i = i + 1;
    }
    assert(more@.subrange(0, more@.len() as int) =~= more@);
}

/// Every action that the board allows.
#[must_use]
pub fn all_actions(solboard: &Board) -> (result: Vec<All>)
    ensures
        result@ == spec_all_actions(solboard@),
{
    let mut result = huakill_actions(solboard);
    append_actions(&mut result, &dragonkill_actions(solboard));
    append_actions(&mut result, &goal_move_actions(solboard));
    append_actions(&mut result, &debunkerize_actions(solboard));
    append_actions(&mut result, &field_move_actions(solboard));
    append_actions(&mut result, &bunkerize_actions(solboard));
    result
}

/// The first flower kill among the actions.
pub open spec fn first_huakill(actions: Seq<All>) -> Option<All>
    decreases actions.len(),
{
    if actions.len() == 0 {
        None
    } else if actions[0] is HuaKill {
        Some(actions[0])
    } else {
        first_huakill(actions.drop_first())
    }
}

/// The first of the goal actions with the lowest rank.
pub open spec fn lowest_goal(actions: Seq<All>) -> Option<Goal>
    decreases actions.len(),
{
    if actions.len() == 0 {
        None
    } else {
        let before = lowest_goal(actions.drop_last());
        match actions.last() {
            All::Goal(goal) => match before {
                Some(lowest) => if goal.card.value < lowest.card.value {
                    Some(goal)
                } else {
                    before
                },
                None => Some(goal),
            },
            _ => before,
        }
    }
}

/// The rank of the top card of the lowest of the first `count` goal
/// piles, an empty pile counting as rank 0.
pub open spec fn lowest_pile(goal: Seq<Option<NumberCard>>, count: nat) -> int
    decreases count,
{
    if count == 0 {
        255
    } else {
        let before = lowest_pile(goal, (count - 1) as nat);
        let rank: int = match goal[count - 1] {
            Some(card) => card.value as int,
            None => 0,
        };
        if rank < before {
            rank
        } else {
            before
        }
    }
}

/// The actions that are worth trying: the flower kill alone where there
/// is one; else the goal action of the lowest rank alone where no pile is
/// more than one rank behind it; else every action.
pub open spec fn spec_filter_actions(board: BoardView) -> Seq<All> {
    let action_list = spec_all_actions(board);
    match first_huakill(action_list) {
        Some(action) => seq![action],
        None => match lowest_goal(action_list) {
            Some(goal) => if goal.card.value <= lowest_pile(board.goal, 3) + 1 {
                seq![All::Goal(goal)]
            } else {
                action_list
            },
            None => action_list,
        },
    }
}

/// The actions that are worth trying on a board.
#[must_use]
pub fn filter_actions(solboard: &Board) -> (result: Vec<All>)
    ensures
        result@ == spec_filter_actions(solboard@),
{
    let action_list = all_actions(solboard);
    let mut i: usize = 0;
    assert(action_list@.subrange(0, action_list@.len() as int) =~= action_list@);
    while i < action_list.len()
        invariant
            i <= action_list@.len(),
            action_list@ == spec_all_actions(solboard@),
            first_huakill(action_list@) == first_huakill(
                action_list@.subrange(i as int, action_list@.len() as int),
            ),
        decreases action_list@.len() - i,
    {
        let ghost rest = action_list@.subrange(i as int, action_list@.len() as int);
        assert(rest[0] == action_list@[i as int]);
        assert(rest.drop_first() =~= action_list@.subrange(
            i as int + 1,
            action_list@.len() as int,
        ));
        if let All::HuaKill(_) = action_list[i] {
            return vec![action_list[i]];
        }
        i = i + 1;
    }
    let mut minimum_goal_action: Option<Goal> = None;
    let mut i: usize = 0;
    assert(action_list@.subrange(0, 0) =~= Seq::<All>::empty());
    while i < action_list.len()
        invariant
            i <= action_list@.len(),
            minimum_goal_action == lowest_goal(action_list@.subrange(0, i as int)),
        decreases action_list@.len() - i,
    {
        proof {
            assert(action_list@.subrange(0, i as int + 1).drop_last() =~= action_list@.subrange(
                0,
                i as int,
            ));
            assert(action_list@.subrange(0, i as int + 1).last() == action_list@[i as int]);
        }
        if let All::Goal(goal) = action_list[i] {
            match minimum_goal_action {
                Some(lowest) => {
                    if goal.card.value < lowest.card.value {
                        minimum_goal_action = Some(goal);
                    }
                },
                None => {
                    minimum_goal_action = Some(goal);
                },
            }
        }
        i = i + 1;
    }
    assert(action_list@.subrange(0, action_list@.len() as int) =~= action_list@);
    let mut minimum_goal: u8 = 255;
    let mut slot: usize = 0;
    while slot < 3
        invariant
            slot <= 3,
            minimum_goal == lowest_pile(solboard@.goal, slot as nat),
        decreases 3 - slot,
    {
        let rank: u8 = match solboard.goal[slot] {
            None => 0,
            Some(card) => card.value,
        };
        if rank < minimum_goal {
            minimum_goal = rank;
        }
        slot = slot + 1;
    }
    if let Some(minimum_goal_action) = minimum_goal_action {
        if minimum_goal_action.card.value as u16 <= minimum_goal as u16 + 1 {
            return vec![All::Goal(minimum_goal_action)];
        }
    }
    action_list
}

} // verus!
