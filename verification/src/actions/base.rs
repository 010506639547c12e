use vstd::prelude::*;
use crate::actions::move_action::Move;
use crate::board::board_class::{Board, BoardView};
use crate::board::cards::{CardType, CardTypeNoHua, NumberCard, SpecialCardType};
use crate::board::fieldposition::FieldPosition;
use crate::board::positions::{on_board, BunkerSlot, PositionNoGoal};
use crate::text::{append, decimal, number_text};

verus! {

/// A number card goes to its goal pile.
#[derive(Debug, Clone, Copy, PartialEq, Eq, Structural)]
pub struct Goal {
    pub card: NumberCard,
    pub source: PositionNoGoal,
    pub goal_slot_index: u8,
}

/// Four dragons of one kind leave the board and block a bunker slot.
#[derive(Debug, Clone, Copy, PartialEq, Eq)]
pub struct DragonKill {
    pub card: SpecialCardType,
    pub source: [PositionNoGoal; 4],
    pub destination_slot_index: u8,
}

/// A single card goes from the top of a column into a bunker slot, or back.
#[derive(Debug, Clone, Copy, PartialEq, Eq, Structural)]
pub struct Bunkerize {
    pub card: CardTypeNoHua,
    pub bunker_slot_index: u8,
    pub field_position: FieldPosition,
    pub to_bunker: bool,
}

/// The flower leaves the field.
#[derive(Debug, Clone, Copy, PartialEq, Eq, Structural)]
pub struct HuaKill {
    pub field_position: FieldPosition,
}

/// One step of a game.
#[derive(Debug, Clone, Copy, PartialEq, Eq)]
pub enum All {
    Bunkerize(Bunkerize),
    DragonKill(DragonKill),
    Goal(Goal),
    HuaKill(HuaKill),
    Move(Move),
}

impl All {
    /// What every action in a running program satisfies: a move in it is valid.
    pub open spec fn valid(self) -> bool {
        self matches All::Move(m) ==> m.valid()
    }
}

/// The board with another column of cards in one place of the field.
pub open spec fn with_column(board: BoardView, column: int, cards: Seq<CardType>) -> BoardView {
    BoardView { field: board.field.update(column, cards), ..board }
}

/// The board with another content of one bunker slot.
pub open spec fn with_slot(board: BoardView, slot: int, content: BunkerSlot) -> BoardView {
    BoardView { bunker: board.bunker.update(slot, content), ..board }
}

/// The board with another top card of one goal pile.
pub open spec fn with_goal(board: BoardView, slot: int, card: Option<NumberCard>) -> BoardView {
    BoardView { goal: board.goal.update(slot, card), ..board }
}

/// The column without its top card; an empty column stays empty.
pub open spec fn without_top(cards: Seq<CardType>) -> Seq<CardType> {
    if cards.len() > 0 {
        cards.drop_last()
    } else {
        cards
    }
}

/// Whether `card` is the one that can be taken from `position`.
pub open spec fn spec_can_pop_top(board: BoardView, position: PositionNoGoal, card: CardType)
    -> bool {
    match position {
        PositionNoGoal::Field(cell) => board.field[cell.spec_column()].last() == card,
        PositionNoGoal::Bunker { slot_index } => !(card is Hua) && board.bunker[slot_index as int]
            == BunkerSlot::Stash(card.without_hua()),
    }
}

/// The board without the card that can be taken from `position`.
pub open spec fn spec_pop_top(board: BoardView, position: PositionNoGoal) -> BoardView {
    match position {
        PositionNoGoal::Field(cell) => with_column(
            board,
            cell.spec_column(),
            without_top(board.field[cell.spec_column()]),
        ),
        PositionNoGoal::Bunker { slot_index } => with_slot(
            board,
            slot_index as int,
            BunkerSlot::Empty,
        ),
    }
}

/// The board with `card` back on `position`.
pub open spec fn spec_push_top(board: BoardView, position: PositionNoGoal, card: CardType)
    -> BoardView {
    match position {
        PositionNoGoal::Field(cell) => with_column(
            board,
            cell.spec_column(),
            board.field[cell.spec_column()].push(card),
        ),
        PositionNoGoal::Bunker { slot_index } => with_slot(
            board,
            slot_index as int,
            BunkerSlot::Stash(card.without_hua()),
        ),
    }
}

/// Whether `card` is the one that can be taken from `position`. A card can
/// only be asked for at a column that holds one, and the flower at no bunker slot.
pub fn can_pop_top(solboard: &Board, position: &PositionNoGoal, card: &CardType) -> (result: bool)
    requires
        on_board(*position),
        position matches PositionNoGoal::Field(cell) ==> solboard@.field[cell.spec_column()].len()
            > 0,
    ensures
        result == spec_can_pop_top(solboard@, *position, *card),
{
    match position {
        PositionNoGoal::Field(fieldpos) => {
            let column = &solboard.field[fieldpos.column() as usize];
            column[column.len() - 1] == *card
        },
        PositionNoGoal::Bunker { slot_index } => {
            match card {
                CardType::Hua => false,
                _ => solboard.bunker[*slot_index as usize] == BunkerSlot::Stash(card.remove_hua()),
            }
        },
    }
}

/// Takes the card from `position`.
pub fn pop_top(solboard: &mut Board, position: &PositionNoGoal)
    requires
        on_board(*position),
    ensures
        final(solboard)@ == spec_pop_top(old(solboard)@, *position),
{
    match position {
        PositionNoGoal::Field(fieldpos) => {
            solboard.field[fieldpos.column() as usize].pop();
            assert(solboard@.field =~= spec_pop_top(old(solboard)@, *position).field);
        },
        PositionNoGoal::Bunker { slot_index } => {
            solboard.bunker[*slot_index as usize] = BunkerSlot::Empty;
            assert(solboard@.field =~= old(solboard)@.field);
        },
    }
}

/// Puts a card back on `position`.
pub fn push_top(solboard: &mut Board, position: &PositionNoGoal, card: CardType)
    requires
        on_board(*position),
        position is Bunker ==> !(card is Hua),
    ensures
        final(solboard)@ == spec_push_top(old(solboard)@, *position, card),
{
    match position {
        PositionNoGoal::Field(fieldpos) => {
            solboard.field[fieldpos.column() as usize].push(card);
            assert(solboard@.field =~= spec_push_top(old(solboard)@, *position, card).field);
        },
        PositionNoGoal::Bunker { slot_index } => {
            solboard.bunker[*slot_index as usize] = BunkerSlot::Stash(card.remove_hua());
            assert(solboard@.field =~= old(solboard)@.field);
        },
    }
}

impl Goal {
    /// The action in words.
    pub open spec fn spec_text(self) -> Seq<char> {
        "Goal "@ + self.card.spec_text() + " from "@ + self.source.spec_text() + " to slot #"@
            + decimal(self.goal_slot_index as nat)
    }

    /// The action in words.
    pub fn to_string(&self) -> (result: String)
        ensures
            result@ == self.spec_text(),
    {
        let mut result = "Goal ".to_owned();
        append(&mut result, self.card.to_string().as_str());
        append(&mut result, " from ");
        append(&mut result, self.source.to_string().as_str());
        append(&mut result, " to slot #");
        append(&mut result, number_text(self.goal_slot_index).as_str());
        result
    }

    /// Whether the action names places that the board has.
    pub open spec fn fits(self) -> bool {
        self.goal_slot_index < 3 && on_board(self.source)
    }

    /// Whether the card is the next of its goal pile and can be taken from its source.
    pub open spec fn spec_can_apply(self, board: BoardView) -> bool {
        &&& match board.goal[self.goal_slot_index as int] {
            Some(top) => self.card.value == top.value + 1 && self.card.suit == top.suit,
            None => self.card.value == 1,
        }
        &&& spec_can_pop_top(board, self.source, CardType::Number(self.card))
    }

    /// The board after the card has gone to its goal pile.
    pub open spec fn spec_apply(self, board: BoardView) -> BoardView {
        with_goal(
            spec_pop_top(board, self.source),
            self.goal_slot_index as int,
            Some(self.card),
        )
    }

    /// The board after the card has come back from its goal pile, which
    /// then shows the rank below, or nothing below an ace.
    pub open spec fn spec_undo(self, board: BoardView) -> BoardView {
        with_goal(
            spec_push_top(board, self.source, CardType::Number(self.card)),
            self.goal_slot_index as int,
            if self.card.value == 1 {
                None
            } else {
                Some(NumberCard { suit: self.card.suit, value: (self.card.value - 1) as u8 })
            },
        )
    }

    /// Whether the card is the next of its goal pile and can be taken from its source.
    pub fn can_apply(&self, solboard: &Board) -> (result: bool)
        requires
            self.fits(),
            self.source matches PositionNoGoal::Field(cell) ==> solboard@.field[cell.spec_column()].len()
                > 0,
        ensures
            result == self.spec_can_apply(solboard@),
    {
        match &solboard.goal[self.goal_slot_index as usize] {
            Some(NumberCard { value, suit }) => {
                if *value == u8::MAX || self.card.value != *value + 1 {
                    return false;
                }
                if self.card.suit != *suit {
                    return false;
                }
            },
            None => {
                if self.card.value != 1 {
                    return false;
                }
            },
        }
        can_pop_top(solboard, &self.source, &CardType::Number(self.card))
    }

    /// Whether the action can be taken back: it always can.
    pub fn can_undo(&self, _solboard: &Board) -> (result: bool)
        ensures
            result,
    {
        true
    }

    /// Sends the card to its goal pile.
    pub fn apply(&self, solboard: &mut Board)
        requires
            self.fits(),
        ensures
            final(solboard)@ == self.spec_apply(old(solboard)@),
    {
        pop_top(solboard, &self.source);
        solboard.goal[self.goal_slot_index as usize] = Some(self.card);
        assert(solboard@.field =~= self.spec_apply(old(solboard)@).field);
    }

    /// Brings the card back from its goal pile.
    pub fn undo(&self, solboard: &mut Board)
        requires
            self.fits(),
            self.card.value >= 1,
        ensures
            final(solboard)@ == self.spec_undo(old(solboard)@),
    {
        push_top(solboard, &self.source, CardType::Number(self.card));
        if self.card.value == 1 {
            solboard.goal[self.goal_slot_index as usize] = None;
        } else {
            solboard.goal[self.goal_slot_index as usize] = Some(
                NumberCard { suit: self.card.suit, value: self.card.value - 1 },
            );
        }
        assert(solboard@.field =~= self.spec_undo(old(solboard)@).field);
    }
}

impl Goal {
    /// Makes the action if it can be made, and says whether it was made.
    pub fn checked_apply(&self, solboard: &mut Board) -> (result: bool)
        requires
            self.fits(),
            self.source matches PositionNoGoal::Field(cell) ==> old(
                solboard,
            )@.field[cell.spec_column()].len() > 0,
        ensures
            result == self.spec_can_apply(old(solboard)@),
            final(solboard)@ == (if result {
                self.spec_apply(old(solboard)@)
            } else {
                old(solboard)@
            }),
    {
        if self.can_apply(solboard) {
            self.apply(solboard);
            return true;
        }
        false
    }

    /// Takes the action back, which can always be done.
    pub fn checked_undo(&self, solboard: &mut Board) -> (result: bool)
        requires
            self.fits(),
            self.card.value >= 1,
        ensures
            result,
            final(solboard)@ == self.spec_undo(old(solboard)@),
    {
        self.undo(solboard);
        true
    }
}

impl DragonKill {
    /// Makes the action if it can be made, and says whether it was made.
    pub fn checked_apply(&self, solboard: &mut Board) -> (result: bool)
        requires
            self.fits(),
        ensures
            result == self.spec_can_apply(old(solboard)@),
            final(solboard)@ == (if result {
                self.spec_apply(old(solboard)@)
            } else {
                old(solboard)@
            }),
    {
        if self.can_apply(solboard) {
            self.apply(solboard);
            return true;
        }
        false
    }

    /// Takes the action back, which can always be done.
    pub fn checked_undo(&self, solboard: &mut Board) -> (result: bool)
        requires
            self.fits(),
        ensures
            result,
            final(solboard)@ == self.spec_undo(old(solboard)@),
    {
        self.undo(solboard);
        true
    }

    /// The action in words.
    pub open spec fn spec_text(self) -> Seq<char> {
        "Kill "@ + self.card.spec_text() + " to bunker #"@ + decimal(
            self.destination_slot_index as nat,
        ) + " from "@ + self.source[0].spec_text() + ", "@ + self.source[1].spec_text() + ", "@
            + self.source[2].spec_text() + ", "@ + self.source[3].spec_text()
    }

    /// The action in words.
    pub fn to_string(&self) -> (result: String)
        ensures
            result@ == self.spec_text(),
    {
        let mut result = "Kill ".to_owned();
        append(&mut result, self.card.to_string().as_str());
        append(&mut result, " to bunker #");
        append(&mut result, number_text(self.destination_slot_index).as_str());
        append(&mut result, " from ");
        append(&mut result, self.source[0].to_string().as_str());
        append(&mut result, ", ");
        append(&mut result, self.source[1].to_string().as_str());
        append(&mut result, ", ");
        append(&mut result, self.source[2].to_string().as_str());
        append(&mut result, ", ");
        append(&mut result, self.source[3].to_string().as_str());
        result
    }

    /// Whether the action names places that the board has.
    pub open spec fn fits(self) -> bool {
        &&& self.destination_slot_index < 3
        &&& forall|i: int| 0 <= i < 4 ==> on_board(#[trigger] self.source[i])
    }

    /// The board after the first `count` dragons have been taken.
    pub open spec fn spec_taken(self, board: BoardView, count: nat) -> BoardView
        decreases count,
    {
        if count == 0 {
            board
        } else {
            spec_pop_top(self.spec_taken(board, (count - 1) as nat), self.source[count - 1])
        }
    }

    /// The board after the first `count` dragons have been put back.
    pub open spec fn spec_returned(self, board: BoardView, count: nat) -> BoardView
        decreases count,
    {
        if count == 0 {
            board
        } else {
            spec_push_top(
                self.spec_returned(board, (count - 1) as nat),
                self.source[count - 1],
                CardType::Special(self.card),
            )
        }
    }

    /// The board after the four dragons have left it and block the slot.
    pub open spec fn spec_apply(self, board: BoardView) -> BoardView {
        with_slot(
            self.spec_taken(board, 4),
            self.destination_slot_index as int,
            BunkerSlot::Blocked(Some(self.card)),
        )
    }

    /// The board after the slot has been emptied and the four dragons are back.
    pub open spec fn spec_undo(self, board: BoardView) -> BoardView {
        self.spec_returned(
            with_slot(board, self.destination_slot_index as int, BunkerSlot::Empty),
            4,
        )
    }

    /// Whether the slot exists and one of the slots before the one in front
    /// of it holds something.
    pub open spec fn spec_can_apply(self, board: BoardView) -> bool {
        self.destination_slot_index < 3 && exists|i: int|
            0 <= i < self.destination_slot_index - 1 && !(#[trigger] board.bunker[i] is Empty)
    }

    /// Takes the four dragons from the board and blocks the slot.
    pub fn apply(&self, solboard: &mut Board)
        requires
            self.fits(),
        ensures
            final(solboard)@ == self.spec_apply(old(solboard)@),
    {
        let mut i: usize = 0;
        while i < 4
            invariant
                i <= 4,
                self.fits(),
                solboard@ == self.spec_taken(old(solboard)@, i as nat),
            decreases 4 - i,
        {
            pop_top(solboard, &self.source[i]);
            i = i + 1;
        }
        let ghost taken = solboard@;
        solboard.bunker[self.destination_slot_index as usize] = BunkerSlot::Blocked(
            Some(self.card),
        );
        assert(solboard@.field =~= taken.field);
    }

    /// Empties the slot and puts the four dragons back.
    pub fn undo(&self, solboard: &mut Board)
        requires
            self.fits(),
        ensures
            final(solboard)@ == self.spec_undo(old(solboard)@),
    {
        solboard.bunker[self.destination_slot_index as usize] = BunkerSlot::Empty;
        assert(solboard@.field =~= old(solboard)@.field);
        let ghost emptied = solboard@;
        let mut i: usize = 0;
        while i < 4
            invariant
                i <= 4,
                self.fits(),
                solboard@ == self.spec_returned(emptied, i as nat),
            decreases 4 - i,
        {
            push_top(solboard, &self.source[i], CardType::Special(self.card));
            i = i + 1;
        }
    }

    /// Whether the slot exists and one of the slots before the one in front of it holds
    /// something.
    pub fn can_apply(&self, solboard: &Board) -> (result: bool)
        ensures
            result == self.spec_can_apply(solboard@),
    {
        if self.destination_slot_index >= 3 {
            return false;
        }
        let count: usize = if self.destination_slot_index == 0 {
            0
        } else {
            (self.destination_slot_index - 1) as usize
        };
        let mut i: usize = 0;
        while i < count
            invariant
                i <= count <= 2,
                self.destination_slot_index < 3,
                count == (if self.destination_slot_index == 0 {
                    0int
                } else {
                    self.destination_slot_index - 1
                }),
                forall|k: int| 0 <= k < i ==> #[trigger] solboard@.bunker[k] is Empty,
            decreases count - i,
        {
            if let BunkerSlot::Empty = solboard.bunker[i] {
            } else {
                assert(!(solboard@.bunker[i as int] is Empty));
                return true;
            }
            i = i + 1;
        }
        false
    }

    /// Whether the action can be taken back: it always can.
    pub fn can_undo(&self, _solboard: &Board) -> (result: bool)
        ensures
            result,
    {
        true
    }
}

impl Bunkerize {
    /// Makes the action if it can be made, and says whether it was made.
    pub fn checked_apply(&self, solboard: &mut Board) -> (result: bool)
        requires
            self.fits(),
            self.to_bunker ==> old(solboard)@.field[self.field_position.spec_column()].len() > 0,
        ensures
            result == self.spec_can_apply(old(solboard)@),
            final(solboard)@ == (if result {
                self.spec_apply(old(solboard)@)
            } else {
                old(solboard)@
            }),
    {
        if self.can_apply(solboard) {
            self.apply(solboard);
            return true;
        }
        false
    }

    /// Takes the action back if it can be taken back, and says whether it was.
    pub fn checked_undo(&self, solboard: &mut Board) -> (result: bool)
        requires
            self.fits(),
            !self.to_bunker ==> old(solboard)@.field[self.field_position.spec_column()].len() > 0,
        ensures
            result == self.spec_can_undo(old(solboard)@),
            final(solboard)@ == (if result {
                self.spec_undo(old(solboard)@)
            } else {
                old(solboard)@
            }),
    {
        if self.can_undo(solboard) {
            self.undo(solboard);
            return true;
        }
        false
    }

    /// The action in words.
    pub open spec fn spec_text(self) -> Seq<char> {
        if self.to_bunker {
            "Move "@ + self.card.spec_text() + " from "@ + self.field_position.spec_text()
                + " to bunker #"@ + decimal(self.bunker_slot_index as nat)
        } else {
            "Move "@ + self.card.spec_text() + " from bunker #"@ + decimal(
                self.bunker_slot_index as nat,
            ) + " to "@ + self.field_position.spec_text()
        }
    }

    /// The action in words.
    pub fn to_string(&self) -> (result: String)
        ensures
            result@ == self.spec_text(),
    {
        let mut result = "Move ".to_owned();
        append(&mut result, self.card.to_string().as_str());
        if self.to_bunker {
            append(&mut result, " from ");
            append(&mut result, self.field_position.to_string().as_str());
            append(&mut result, " to bunker #");
            append(&mut result, number_text(self.bunker_slot_index).as_str());
        } else {
            append(&mut result, " from bunker #");
            append(&mut result, number_text(self.bunker_slot_index).as_str());
            append(&mut result, " to ");
            append(&mut result, self.field_position.to_string().as_str());
        }
        result
    }

    /// Whether the action names places that the board has.
    pub open spec fn fits(self) -> bool {
        self.bunker_slot_index < 3 && self.field_position.spec_column() < 8
    }

    /// Whether the card lies on top of its column at its row, and the slot is empty.
    pub open spec fn spec_can_move_to_bunker(self, board: BoardView) -> bool {
        let column = board.field[self.field_position.spec_column()];
        &&& self.field_position.spec_row() + 1 == column.len() % 256
        &&& column.last() == self.card.with_hua()
        &&& board.bunker[self.bunker_slot_index as int] == BunkerSlot::Empty
    }

    /// Whether the card lies in its slot, and its row is the next free one
    /// of its column.
    pub open spec fn spec_can_move_from_bunker(self, board: BoardView) -> bool {
        &&& board.bunker[self.bunker_slot_index as int] == BunkerSlot::Stash(self.card)
        &&& self.field_position.spec_row() == board.field[self.field_position.spec_column()].len()
            % 256
    }

    /// The board after the top card of the column has gone into the slot.
    pub open spec fn spec_move_to_bunker(self, board: BoardView) -> BoardView {
        with_slot(
            with_column(
                board,
                self.field_position.spec_column(),
                without_top(board.field[self.field_position.spec_column()]),
            ),
            self.bunker_slot_index as int,
            BunkerSlot::Stash(self.card),
        )
    }

    /// The board after the card has gone from the slot onto the column.
    pub open spec fn spec_move_from_bunker(self, board: BoardView) -> BoardView {
        with_slot(
            with_column(
                board,
                self.field_position.spec_column(),
                board.field[self.field_position.spec_column()].push(self.card.with_hua()),
            ),
            self.bunker_slot_index as int,
            BunkerSlot::Empty,
        )
    }

    /// The board after the action.
    pub open spec fn spec_apply(self, board: BoardView) -> BoardView {
        if self.to_bunker {
            self.spec_move_to_bunker(board)
        } else {
            self.spec_move_from_bunker(board)
        }
    }

    /// The board after the action has been taken back.
    pub open spec fn spec_undo(self, board: BoardView) -> BoardView {
        if self.to_bunker {
            self.spec_move_from_bunker(board)
        } else {
            self.spec_move_to_bunker(board)
        }
    }

    /// Whether the action can be made on the board.
    pub open spec fn spec_can_apply(self, board: BoardView) -> bool {
        if self.to_bunker {
            self.spec_can_move_to_bunker(board)
        } else {
            self.spec_can_move_from_bunker(board)
        }
    }

    /// Whether the action can be taken back on the board.
    pub open spec fn spec_can_undo(self, board: BoardView) -> bool {
        if self.to_bunker {
            self.spec_can_move_from_bunker(board)
        } else {
            self.spec_can_move_to_bunker(board)
        }
    }

    /// Whether the card lies on top of its column at its row, and the slot is empty.
    pub fn can_move_to_bunker(&self, solboard: &Board) -> (result: bool)
        requires
            self.fits(),
            solboard@.field[self.field_position.spec_column()].len() > 0,
        ensures
            result == self.spec_can_move_to_bunker(solboard@),
    {
        let column = &solboard.field[self.field_position.column() as usize];
        if self.field_position.row() + 1 != (column.len() % 256) as u8 {
            return false;
        }
        if self.card.add_hua() != column[column.len() - 1] {
            return false;
        }
        if solboard.bunker[self.bunker_slot_index as usize] != BunkerSlot::Empty {
            return false;
        }
        true
    }

    /// Puts the top card of the column into the slot.
    pub fn move_to_bunker(&self, solboard: &mut Board)
        requires
            self.fits(),
        ensures
            final(solboard)@ == self.spec_move_to_bunker(old(solboard)@),
    {
        solboard.field[self.field_position.column() as usize].pop();
        solboard.bunker[self.bunker_slot_index as usize] = BunkerSlot::Stash(self.card);
        assert(solboard@.field =~= self.spec_move_to_bunker(old(solboard)@).field);
    }

    /// Whether the card lies in its slot, and its row is the next free one of its column.
    pub fn can_move_from_bunker(&self, solboard: &Board) -> (result: bool)
        requires
            self.fits(),
        ensures
            result == self.spec_can_move_from_bunker(solboard@),
    {
        if solboard.bunker[self.bunker_slot_index as usize] != BunkerSlot::Stash(self.card) {
            return false;
        }
        if self.field_position.row() != (solboard.field[self.field_position.column() as usize].len()
            % 256) as u8 {
            return false;
        }
        true
    }

    /// Puts the card from the slot onto the column.
    pub fn move_from_bunker(&self, solboard: &mut Board)
        requires
            self.fits(),
        ensures
            final(solboard)@ == self.spec_move_from_bunker(old(solboard)@),
    {
        solboard.field[self.field_position.column() as usize].push(self.card.add_hua());
        solboard.bunker[self.bunker_slot_index as usize] = BunkerSlot::Empty;
        assert(solboard@.field =~= self.spec_move_from_bunker(old(solboard)@).field);
    }

    /// Makes the action on a board.
    pub fn apply(&self, solboard: &mut Board)
        requires
            self.fits(),
        ensures
            final(solboard)@ == self.spec_apply(old(solboard)@),
    {
        if self.to_bunker {
            self.move_to_bunker(solboard);
        } else {
            self.move_from_bunker(solboard);
        }
    }

    /// Takes the action back on a board.
    pub fn undo(&self, solboard: &mut Board)
        requires
            self.fits(),
        ensures
            final(solboard)@ == self.spec_undo(old(solboard)@),
    {
        if self.to_bunker {
            self.move_from_bunker(solboard);
        } else {
            self.move_to_bunker(solboard);
        }
    }

    /// Whether the action can be made on the board.
    pub fn can_apply(&self, solboard: &Board) -> (result: bool)
        requires
            self.fits(),
            self.to_bunker ==> solboard@.field[self.field_position.spec_column()].len() > 0,
        ensures
            result == self.spec_can_apply(solboard@),
    {
        if self.to_bunker {
            self.can_move_to_bunker(solboard)
        } else {
            self.can_move_from_bunker(solboard)
        }
    }

    /// Whether the action can be taken back on the board.
    pub fn can_undo(&self, solboard: &Board) -> (result: bool)
        requires
            self.fits(),
            !self.to_bunker ==> solboard@.field[self.field_position.spec_column()].len() > 0,
        ensures
            result == self.spec_can_undo(solboard@),
    {
        if self.to_bunker {
            self.can_move_from_bunker(solboard)
        } else {
            self.can_move_to_bunker(solboard)
        }
    }
}

impl HuaKill {
    /// Makes the action if it can be made, and says whether it was made.
    pub fn checked_apply(&self, solboard: &mut Board) -> (result: bool)
        requires
            self.fits(),
        ensures
            result == self.spec_can_apply(old(solboard)@),
            final(solboard)@ == (if result {
                self.spec_apply(old(solboard)@)
            } else {
                old(solboard)@
            }),
    {
        if self.can_apply(solboard) {
            self.apply(solboard);
            return true;
        }
        false
    }

    /// Takes the action back if it can be taken back, and says whether it was.
    pub fn checked_undo(&self, solboard: &mut Board) -> (result: bool)
        requires
            self.fits(),
        ensures
            result == self.spec_can_undo(old(solboard)@),
            final(solboard)@ == (if result {
                self.spec_undo(old(solboard)@)
            } else {
                old(solboard)@
            }),
    {
        if self.can_undo(solboard) {
            self.undo(solboard);
            return true;
        }
        false
    }

    /// The action in words.
    pub open spec fn spec_text(self) -> Seq<char> {
        "Kill hua from "@ + self.field_position.spec_text()
    }

    /// The action in words.
    pub fn to_string(&self) -> (result: String)
        ensures
            result@ == self.spec_text(),
    {
        let mut result = "Kill hua from ".to_owned();
        append(&mut result, self.field_position.to_string().as_str());
        result
    }

    /// Whether the action names a column that the board has.
    pub open spec fn fits(self) -> bool {
        self.field_position.spec_column() < 8
    }

    /// Whether the flower lies on top of the column at the row.
    pub open spec fn spec_can_apply(self, board: BoardView) -> bool {
        let column = board.field[self.field_position.spec_column()];
        column.len() > 0 && column.last() == CardType::Hua && column.len()
            == self.field_position.spec_row() + 1
    }

    /// Whether the row is the next free one of the column.
    pub open spec fn spec_can_undo(self, board: BoardView) -> bool {
        board.field[self.field_position.spec_column()].len() == self.field_position.spec_row()
    }

    /// The board after the top card of the column has left it as the flower.
    pub open spec fn spec_apply(self, board: BoardView) -> BoardView {
        BoardView {
            hua_set: true,
            ..with_column(
                board,
                self.field_position.spec_column(),
                without_top(board.field[self.field_position.spec_column()]),
            )
        }
    }

    /// The board after the flower has come back onto the column.
    pub open spec fn spec_undo(self, board: BoardView) -> BoardView {
        BoardView {
            hua_set: false,
            ..with_column(
                board,
                self.field_position.spec_column(),
                board.field[self.field_position.spec_column()].push(CardType::Hua),
            )
        }
    }

    /// Whether the flower lies on top of the column at the row.
    pub fn can_apply(&self, solboard: &Board) -> (result: bool)
        requires
            self.fits(),
        ensures
            result == self.spec_can_apply(solboard@),
    {
        let column = &solboard.field[self.field_position.column() as usize];
        if column.len() == 0 {
            return false;
        }
        match column[column.len() - 1] {
            CardType::Hua => {},
            _ => {
                return false;
            },
        }
        if column.len() != (self.field_position.row() as usize) + 1 {
            return false;
        }
        true
    }

    /// Takes the flower from the column and sets it.
    pub fn apply(&self, solboard: &mut Board)
        requires
            self.fits(),
        ensures
            final(solboard)@ == self.spec_apply(old(solboard)@),
    {
        solboard.field[self.field_position.column() as usize].pop();
        solboard.hua_set = true;
        assert(solboard@.field =~= self.spec_apply(old(solboard)@).field);
    }

    /// Whether the row is the next free one of the column.
    pub fn can_undo(&self, solboard: &Board) -> (result: bool)
        requires
            self.fits(),
        ensures
            result == self.spec_can_undo(solboard@),
    {
        solboard.field[self.field_position.column() as usize].len()
            == self.field_position.row() as usize
    }

    /// Puts the flower back onto the column.
    pub fn undo(&self, solboard: &mut Board)
        requires
            self.fits(),
        ensures
            final(solboard)@ == self.spec_undo(old(solboard)@),
    {
        solboard.field[self.field_position.column() as usize].push(CardType::Hua);
        solboard.hua_set = false;
        assert(solboard@.field =~= self.spec_undo(old(solboard)@).field);
    }
}

/// Whether a move can be made on a board: its columns exist, and its
/// source column holds at least the cards that it takes.
pub open spec fn move_fits(action: Move, board: BoardView) -> bool {
    &&& action.spec_source().spec_column() < 8
    &&& action.spec_destination().spec_column() < 8
    &&& board.field[action.spec_source().spec_column()].len() >= action.spec_stack_len()
}

/// Whether a move can be taken back on a board: its columns exist, and its
/// destination column holds at least the cards that it brought.
pub open spec fn move_back_fits(action: Move, board: BoardView) -> bool {
    &&& action.spec_source().spec_column() < 8
    &&& action.spec_destination().spec_column() < 8
    &&& board.field[action.spec_destination().spec_column()].len() >= action.spec_stack_len()
}

/// The board after as many cards as the move takes have left the column
/// `from` and the cards of the move lie on the column `to`.
pub open spec fn spec_shift(action: Move, board: BoardView, from: int, to: int) -> BoardView {
    let taken = with_column(
        board,
        from,
        board.field[from].take(board.field[from].len() - action.spec_stack_len()),
    );
    with_column(taken, to, taken.field[to] + action.spec_cards())
}

/// The board after a move.
pub open spec fn spec_apply_move(action: Move, board: BoardView) -> BoardView {
    spec_shift(
        action,
        board,
        action.spec_source().spec_column(),
        action.spec_destination().spec_column(),
    )
}

/// The board after a move has been taken back.
pub open spec fn spec_undo_move(action: Move, board: BoardView) -> BoardView {
    spec_shift(
        action,
        board,
        action.spec_destination().spec_column(),
        action.spec_source().spec_column(),
    )
}

fn shift(action: &Move, solboard: &mut Board, from: usize, to: usize)
    requires
        from < 8,
        to < 8,
        old(solboard)@.field[from as int].len() >= action.spec_stack_len(),
    ensures
        final(solboard)@ == spec_shift(*action, old(solboard)@, from as int, to as int),
{
    let keep = solboard.field[from].len() - action.stack_len() as usize;
    solboard.field[from].truncate(keep);
    let ghost taken = solboard@;
    assert(taken.field =~= with_column(
        old(solboard)@,
        from as int,
        old(solboard)@.field[from as int].take(keep as int),
    ).field);
    let mut cards = action.cards();
    solboard.field[to].append(&mut cards);
    assert(solboard@.field =~= spec_shift(*action, old(solboard)@, from as int, to as int).field);
}

/// Makes a move on a board.
pub fn apply_move(action: &Move, solboard: &mut Board)
    requires
        move_fits(*action, old(solboard)@),
    ensures
        final(solboard)@ == spec_apply_move(*action, old(solboard)@),
{
    shift(
        action,
        solboard,
        action.source().column() as usize,
        action.destination().column() as usize,
    );
}

/// Takes a move back on a board.
pub fn undo_move(action: &Move, solboard: &mut Board)
    requires
        move_back_fits(*action, old(solboard)@),
    ensures
        final(solboard)@ == spec_undo_move(*action, old(solboard)@),
{
    shift(
        action,
        solboard,
        action.destination().column() as usize,
        action.source().column() as usize,
    );
}

impl Move {
    /// Whether the move can be made: a move is made without being asked.
    pub fn can_apply(&self, _solboard: &Board) -> (result: bool)
        ensures
            result,
    {
        true
    }

    /// Whether the move can be taken back.
    pub fn can_undo(&self, _solboard: &Board) -> (result: bool)
        ensures
            result,
    {
        true
    }

    /// Makes the move on a board.
    pub fn apply(&self, solboard: &mut Board)
        requires
            move_fits(*self, old(solboard)@),
        ensures
            final(solboard)@ == spec_apply_move(*self, old(solboard)@),
    {
        apply_move(self, solboard);
    }

    /// Takes the move back on a board.
    pub fn undo(&self, solboard: &mut Board)
        requires
            move_back_fits(*self, old(solboard)@),
        ensures
            final(solboard)@ == spec_undo_move(*self, old(solboard)@),
    {
        undo_move(self, solboard);
    }

    /// Makes the move, which is always allowed.
    pub fn checked_apply(&self, solboard: &mut Board) -> (result: bool)
        requires
            move_fits(*self, old(solboard)@),
        ensures
            result,
            final(solboard)@ == spec_apply_move(*self, old(solboard)@),
    {
        apply_move(self, solboard);
        true
    }

    /// Takes the move back, which is always allowed.
    pub fn checked_undo(&self, solboard: &mut Board) -> (result: bool)
        requires
            move_back_fits(*self, old(solboard)@),
        ensures
            result,
            final(solboard)@ == spec_undo_move(*self, old(solboard)@),
    {
        undo_move(self, solboard);
        true
    }
}

impl All {
    /// The action in words.
    pub open spec fn spec_text(self) -> Seq<char> {
        match self {
            All::Bunkerize(x) => x.spec_text(),
            All::DragonKill(x) => x.spec_text(),
            All::Goal(x) => x.spec_text(),
            All::HuaKill(x) => x.spec_text(),
            All::Move(x) => x.spec_text(),
        }
    }

    /// The action in words.
    pub fn to_string(&self) -> (result: String)
        ensures
            result@ == self.spec_text(),
    {
        match self {
            Self::Bunkerize(x) => x.to_string(),
            Self::DragonKill(x) => x.to_string(),
            Self::Goal(x) => x.to_string(),
            Self::HuaKill(x) => x.to_string(),
            Self::Move(x) => x.to_string(),
        }
    }

    /// Whether the action can be made on a board without leaving it: the
    /// places that it names exist, and a move finds the cards that it takes.
    pub open spec fn fits(self, board: BoardView) -> bool {
        match self {
            All::HuaKill(a) => a.fits(),
            All::DragonKill(a) => a.fits(),
            All::Goal(a) => a.fits(),
            All::Bunkerize(a) => a.fits(),
            All::Move(a) => move_fits(a, board),
        }
    }

    /// Whether the action can be taken back on a board without leaving it.
    pub open spec fn fits_back(self, board: BoardView) -> bool {
        match self {
            All::HuaKill(a) => a.fits(),
            All::DragonKill(a) => a.fits(),
            All::Goal(a) => a.fits() && a.card.value >= 1,
            All::Bunkerize(a) => a.fits(),
            All::Move(a) => move_back_fits(a, board),
        }
    }

    /// The board after the action.
    pub open spec fn spec_apply(self, board: BoardView) -> BoardView {
        match self {
            All::HuaKill(a) => a.spec_apply(board),
            All::DragonKill(a) => a.spec_apply(board),
            All::Goal(a) => a.spec_apply(board),
            All::Bunkerize(a) => a.spec_apply(board),
            All::Move(a) => spec_apply_move(a, board),
        }
    }

    /// The board after the action has been taken back.
    pub open spec fn spec_undo(self, board: BoardView) -> BoardView {
        match self {
            All::HuaKill(a) => a.spec_undo(board),
            All::DragonKill(a) => a.spec_undo(board),
            All::Goal(a) => a.spec_undo(board),
            All::Bunkerize(a) => a.spec_undo(board),
            All::Move(a) => spec_undo_move(a, board),
        }
    }

    /// Whether the action can be made on `solboard` without leaving it.
    pub fn check_fits(&self, solboard: &Board) -> (result: bool)
        ensures
            result == self.fits(solboard@),
    {
        match self {
            All::HuaKill(a) => a.field_position.column() < 8,
            All::DragonKill(a) => a.destination_slot_index < 3 && place_on_board(&a.source[0])
                && place_on_board(&a.source[1]) && place_on_board(&a.source[2]) && place_on_board(
                &a.source[3],
            ),
            All::Goal(a) => a.goal_slot_index < 3 && place_on_board(&a.source),
            All::Bunkerize(a) => a.bunker_slot_index < 3 && a.field_position.column() < 8,
            All::Move(a) => {
                let source = a.source().column();
                source < 8 && a.destination().column() < 8 && solboard.field[source as usize].len()
                    >= a.stack_len() as usize
            },
        }
    }

    /// Whether the action can be taken back on `solboard` without leaving it.
    pub fn check_fits_back(&self, solboard: &Board) -> (result: bool)
        ensures
            result == self.fits_back(solboard@),
    {
        match self {
            All::HuaKill(a) => a.field_position.column() < 8,
            All::DragonKill(a) => a.destination_slot_index < 3 && place_on_board(&a.source[0])
                && place_on_board(&a.source[1]) && place_on_board(&a.source[2]) && place_on_board(
                &a.source[3],
            ),
            All::Goal(a) => a.goal_slot_index < 3 && place_on_board(&a.source) && a.card.value
                >= 1,
            All::Bunkerize(a) => a.bunker_slot_index < 3 && a.field_position.column() < 8,
            All::Move(a) => {
                let destination = a.destination().column();
                a.source().column() < 8 && destination < 8
                    && solboard.field[destination as usize].len() >= a.stack_len() as usize
            },
        }
    }

    /// Makes the action on a board.
    pub fn apply(&self, solboard: &mut Board)
        requires
            self.fits(old(solboard)@),
        ensures
            final(solboard)@ == self.spec_apply(old(solboard)@),
    {
        match self {
            Self::HuaKill(obj) => {
                obj.apply(solboard);
            },
            Self::DragonKill(obj) => {
                obj.apply(solboard);
            },
            Self::Goal(obj) => {
                obj.apply(solboard);
            },
            Self::Bunkerize(obj) => {
                obj.apply(solboard);
            },
            Self::Move(obj) => apply_move(obj, solboard),
        }
    }

    /// Takes the action back on a board.
    pub fn undo(&self, solboard: &mut Board)
        requires
            self.fits_back(old(solboard)@),
        ensures
            final(solboard)@ == self.spec_undo(old(solboard)@),
    {
        match self {
            Self::HuaKill(obj) => {
                obj.undo(solboard);
            },
            Self::DragonKill(obj) => {
                obj.undo(solboard);
            },
            Self::Goal(obj) => {
                obj.undo(solboard);
            },
            Self::Bunkerize(obj) => {
                obj.undo(solboard);
            },
            Self::Move(obj) => undo_move(obj, solboard),
        }
    }
}

fn place_on_board(position: &PositionNoGoal) -> (result: bool)
    ensures
        result == on_board(*position),
{
    match position {
        PositionNoGoal::Field(cell) => cell.column() < 8,
        PositionNoGoal::Bunker { slot_index } => *slot_index < 3,
    }
}

} // verus!
