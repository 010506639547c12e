use vstd::prelude::*;
use crate::board::cards::{CardType, CardTypeNoHua, NumberCard, NumberCardColor, SpecialCardType};
use crate::board::fieldposition::FieldPosition;
use crate::board::positions::{on_board, BunkerSlot, PositionNoGoal};

verus! {

/// What is wrong with the cards of a board.
#[derive(Debug, Clone, Copy, Eq, PartialEq, Hash, Structural)]
pub enum Error {
    CardMissing(CardType),
    CardDouble(CardType),
    GoalTooHigh(NumberCard),
    ErraneousCard(NumberCard),
}

/// The table: eight columns of cards, three goal piles, the flower's
/// place and three bunker slots.
#[derive(Debug, Clone, PartialEq, Eq, Hash)]
pub struct Board {
    pub field: [Vec<CardType>; 8],
    pub goal: [Option<NumberCard>; 3],
    pub hua_set: bool,
    pub bunker: [BunkerSlot; 3],
}

/// What a board holds.
pub struct BoardView {
    pub field: Seq<Seq<CardType>>,
    pub goal: Seq<Option<NumberCard>>,
    pub hua_set: bool,
    pub bunker: Seq<BunkerSlot>,
}

impl View for Board {
    type V = BoardView;

    open spec fn view(&self) -> BoardView {
        BoardView {
            field: Seq::new(8, |i: int| self.field[i]@),
            goal: self.goal@,
            hua_set: self.hua_set,
            bunker: self.bunker@,
        }
    }
}

/// The suit with the ordinal `index`.
pub open spec fn suit_at(index: int) -> NumberCardColor {
    if index == 0 {
        NumberCardColor::Red
    } else if index == 1 {
        NumberCardColor::Green
    } else {
        NumberCardColor::Black
    }
}

/// The dragon kind with the ordinal `index`.
pub open spec fn dragon_at(index: int) -> SpecialCardType {
    if index == 0 {
        SpecialCardType::Zhong
    } else if index == 1 {
        SpecialCardType::Bai
    } else {
        SpecialCardType::Fa
    }
}

/// What has been seen of a board while its cards are counted.
pub struct Tally {
    /// How often each dragon kind was seen, by its ordinal.
    pub specials: Seq<int>,
    /// Which ranks of each suit were seen, by the suit's ordinal and the rank less one.
    pub numbers: Seq<Seq<bool>>,
    /// Whether the flower was seen.
    pub hua_exists: bool,
    /// How many bunker slots are blocked by dragons of an unknown kind.
    pub unknown_blocked: int,
}

/// The tally before any card of the board has been seen.
pub open spec fn tally_start(board: BoardView) -> Tally {
    Tally {
        specials: seq![0int, 0int, 0int],
        numbers: Seq::new(3, |s: int| Seq::new(9, |v: int| false)),
        hua_exists: board.hua_set,
        unknown_blocked: 0,
    }
}

/// The tally after one more number card.
pub open spec fn tally_number(tally: Tally, card: NumberCard) -> Result<Tally, Error> {
    if card.value > 9 || card.value < 1 {
        Err(Error::ErraneousCard(card))
    } else if tally.numbers[card.suit.ordinal()][card.value - 1] {
        Err(Error::CardDouble(CardType::Number(card)))
    } else {
        Ok(
            Tally {
                numbers: tally.numbers.update(
                    card.suit.ordinal(),
                    tally.numbers[card.suit.ordinal()].update(card.value - 1, true),
                ),
                ..tally
            },
        )
    }
}

/// The tally after one more dragon. A sixth dragon of a kind is one too many.
pub open spec fn tally_special(tally: Tally, card: SpecialCardType) -> Result<Tally, Error> {
    if tally.specials[card.ordinal()] > 4 {
        Err(Error::CardDouble(CardType::Special(card)))
    } else {
        Ok(
            Tally {
                specials: tally.specials.update(
                    card.ordinal(),
                    tally.specials[card.ordinal()] + 1,
                ),
                ..tally
            },
        )
    }
}

/// The tally after `times` more dragons of a kind.
pub open spec fn tally_specials(tally: Tally, card: SpecialCardType, times: nat) -> Result<
    Tally,
    Error,
>
    decreases times,
{
    if times == 0 {
        Ok(tally)
    } else {
        match tally_specials(tally, card, (times - 1) as nat) {
            Ok(before) => tally_special(before, card),
            Err(error) => Err(error),
        }
    }
}

/// The tally after one more card of the field.
pub open spec fn tally_card(tally: Tally, card: CardType) -> Result<Tally, Error> {
    match card {
        CardType::Number(number_card) => tally_number(tally, number_card),
        CardType::Special(card_type) => tally_special(tally, card_type),
        CardType::Hua => if tally.hua_exists {
            Err(Error::CardDouble(CardType::Hua))
        } else {
            Ok(Tally { hua_exists: true, ..tally })
        },
    }
}

/// The tally after the cards of a column, bottom card first.
pub open spec fn tally_cards(tally: Tally, cards: Seq<CardType>) -> Result<Tally, Error>
    decreases cards.len(),
{
    if cards.len() == 0 {
        Ok(tally)
    } else {
        match tally_cards(tally, cards.drop_last()) {
            Ok(before) => tally_card(before, cards.last()),
            Err(error) => Err(error),
        }
    }
}

/// The tally after the first `count` columns.
pub open spec fn tally_columns(tally: Tally, field: Seq<Seq<CardType>>, count: nat) -> Result<
    Tally,
    Error,
>
    decreases count,
{
    if count == 0 {
        Ok(tally)
    } else {
        match tally_columns(tally, field, (count - 1) as nat) {
            Ok(before) => tally_cards(before, field[count - 1]),
            Err(error) => Err(error),
        }
    }
}

/// The tally after one more bunker slot: a slot that dragons block holds four of them.
pub open spec fn tally_slot(tally: Tally, slot: BunkerSlot) -> Result<Tally, Error> {
    match slot {
        BunkerSlot::Blocked(None) => Ok(
            Tally { unknown_blocked: tally.unknown_blocked + 1, ..tally },
        ),
        BunkerSlot::Blocked(Some(card_type)) => tally_specials(tally, card_type, 4),
        BunkerSlot::Stash(CardTypeNoHua::Special(card_type)) => tally_special(tally, card_type),
        BunkerSlot::Stash(CardTypeNoHua::Number(number_card)) => tally_number(tally, number_card),
        BunkerSlot::Empty => Ok(tally),
    }
}

/// The tally after the first `count` bunker slots.
pub open spec fn tally_slots(tally: Tally, bunker: Seq<BunkerSlot>, count: nat) -> Result<
    Tally,
    Error,
>
    decreases count,
{
    if count == 0 {
        Ok(tally)
    } else {
        match tally_slots(tally, bunker, (count - 1) as nat) {
            Ok(before) => tally_slot(before, bunker[count - 1]),
            Err(error) => Err(error),
        }
    }
}

/// The tally after the ranks of a suit below `upto` have gone to the goal
/// with the card `card`.
pub open spec fn tally_goal_ranks(tally: Tally, card: NumberCard, upto: nat) -> Result<Tally, Error>
    decreases upto,
{
    if upto == 0 {
        Ok(tally)
    } else {
        match tally_goal_ranks(tally, card, (upto - 1) as nat) {
            Err(error) => Err(error),
            Ok(before) => if upto > 9 || before.numbers[card.suit.ordinal()][upto - 1] {
                Err(Error::GoalTooHigh(card))
            } else {
                Ok(
                    Tally {
                        numbers: before.numbers.update(
                            card.suit.ordinal(),
                            before.numbers[card.suit.ordinal()].update(upto - 1, true),
                        ),
                        ..before
                    },
                )
            },
        }
    }
}

/// The tally after the first `count` goal piles: a pile holds its top card
/// and every lower rank of the suit.
pub open spec fn tally_goals(tally: Tally, goal: Seq<Option<NumberCard>>, count: nat) -> Result<
    Tally,
    Error,
>
    decreases count,
{
    if count == 0 {
        Ok(tally)
    } else {
        match tally_goals(tally, goal, (count - 1) as nat) {
            Err(error) => Err(error),
            Ok(before) => match goal[count - 1] {
                Some(card) => tally_goal_ranks(before, card, card.value as nat),
                None => Ok(before),
            },
        }
    }
}

/// The first dragon kind among the first `count` that cannot be made up:
/// a kind of which there are not four uses up one of the slots that
/// unknown dragons block, and is missing where none is left.
pub open spec fn missing_dragon(specials: Seq<int>, unknown_blocked: int, count: nat) -> (Option<
    SpecialCardType,
>, int)
    decreases count,
{
    if count == 0 {
        (None, unknown_blocked)
    } else {
        let (found, left) = missing_dragon(specials, unknown_blocked, (count - 1) as nat);
        if found is Some {
            (found, left)
        } else if specials[count - 1] != 4 {
            if left == 0 {
                (Some(dragon_at(count - 1)), left)
            } else {
                (None, left - 1)
            }
        } else {
            (None, left)
        }
    }
}

/// The first number card among the first `count` ranks in the order of
/// suits and ranks that was not seen; `count` runs up to 27.
pub open spec fn missing_number(numbers: Seq<Seq<bool>>, count: nat) -> Option<NumberCard>
    decreases count,
{
    if count == 0 {
        None
    } else {
        match missing_number(numbers, (count - 1) as nat) {
            Some(card) => Some(card),
            None => if !numbers[(count - 1) / 9][(count - 1) % 9] {
                Some(
                    NumberCard {
                        suit: suit_at((count - 1) / 9),
                        value: ((count - 1) % 9 + 1) as u8,
                    },
                )
            } else {
                None
            },
        }
    }
}

/// What is wrong with the cards of a board, if anything: the cards of the
/// field are counted column by column, then those of the bunker, then
/// those of the goal piles; then each dragon kind and each number card has
/// to be there.
pub open spec fn spec_check(board: BoardView) -> Result<(), Error> {
    match tally_columns(tally_start(board), board.field, 8) {
        Err(error) => Err(error),
        Ok(after_field) => match tally_slots(after_field, board.bunker, 3) {
            Err(error) => Err(error),
            Ok(after_bunker) => match tally_goals(after_bunker, board.goal, 3) {
                Err(error) => Err(error),
                Ok(tally) => match missing_dragon(tally.specials, tally.unknown_blocked, 3).0 {
                    Some(card_type) => Err(Error::CardMissing(CardType::Special(card_type))),
                    None => match missing_number(tally.numbers, 27) {
                        Some(card) => Err(Error::CardMissing(CardType::Number(card))),
                        None => Ok(()),
                    },
                },
            },
        },
    }
}

/// The rank of the top card of the first goal pile of the suit, or 0.
pub open spec fn spec_goal_value(goal: Seq<Option<NumberCard>>, suit: NumberCardColor) -> u8
    decreases goal.len(),
{
    if goal.len() == 0 {
        0
    } else {
        match goal[0] {
            Some(card) => if card.suit == suit {
                card.value
            } else {
                spec_goal_value(goal.drop_first(), suit)
            },
            None => spec_goal_value(goal.drop_first(), suit),
        }
    }
}

/// Whether nothing is left to do: the field is empty, dragons block every
/// bunker slot, the flower is set, and the goal piles hold the nines of
/// the three suits.
pub open spec fn spec_solved(board: BoardView) -> bool {
    &&& forall|i: int| 0 <= i < 8 ==> (#[trigger] board.field[i]).len() == 0
    &&& forall|i: int| 0 <= i < 3 ==> #[trigger] board.bunker[i] is Blocked
    &&& board.hua_set
    &&& forall|i: int|
        0 <= i < 3 ==> (#[trigger] board.goal[i] matches Some(card) && card.value == 9)
    &&& pile_of(board.goal, NumberCardColor::Red)
    &&& pile_of(board.goal, NumberCardColor::Green)
    &&& pile_of(board.goal, NumberCardColor::Black)
}

/// Whether one of the goal piles holds a card of the suit.
pub open spec fn pile_of(goal: Seq<Option<NumberCard>>, suit: NumberCardColor) -> bool {
    exists|i: int| 0 <= i < 3 && (#[trigger] goal[i] matches Some(card) && card.suit == suit)
}

/// The cards that can be taken, each with its place: the cards of the
/// bunker by slot, then the top cards of the columns by column.
pub open spec fn spec_movable_cards(board: BoardView) -> Seq<(PositionNoGoal, CardType)> {
    spec_movable_bunker(board.bunker, 3) + spec_movable_field(board.field, 8)
}

/// The cards of the first `count` bunker slots with their places.
pub open spec fn spec_movable_bunker(bunker: Seq<BunkerSlot>, count: nat) -> Seq<
    (PositionNoGoal, CardType),
>
    decreases count,
{
    if count == 0 {
        Seq::empty()
    } else {
        let before = spec_movable_bunker(bunker, (count - 1) as nat);
        match bunker[count - 1] {
            BunkerSlot::Stash(card) => before.push(
                (PositionNoGoal::Bunker { slot_index: (count - 1) as u8 }, card.with_hua()),
            ),
            _ => before,
        }
    }
}

/// The top cards of the first `count` columns with their places.
pub open spec fn spec_movable_field(field: Seq<Seq<CardType>>, count: nat) -> Seq<
    (PositionNoGoal, CardType),
>
    decreases count,
{
    if count == 0 {
        Seq::empty()
    } else {
        let before = spec_movable_field(field, (count - 1) as nat);
        let column = field[count - 1];
        if column.len() > 0 {
            before.push(
                (
                    PositionNoGoal::Field(FieldPosition::at(count - 1, column.len() - 1)),
                    column.last(),
                ),
            )
        } else {
            before
        }
    }
}

/// The counters that `check` keeps.
struct Counters {
    specials: [i8; 3],
    numbers: [[bool; 9]; 3],
    hua_exists: bool,
    unknown_blocked: u8,
}

impl Counters {
    spec fn tally(self) -> Tally {
        Tally {
            specials: Seq::new(3, |k: int| self.specials[k] as int),
            numbers: Seq::new(3, |s: int| self.numbers[s]@),
            hua_exists: self.hua_exists,
            unknown_blocked: self.unknown_blocked as int,
        }
    }

    spec fn bounded(self) -> bool {
        forall|k: int| 0 <= k < 3 ==> 0 <= #[trigger] self.specials[k] <= 5
    }
}

fn suit_index(suit: &NumberCardColor) -> (result: usize)
    ensures
        result == suit.ordinal(),
        result < 3,
{
    match suit {
        NumberCardColor::Red => 0,
        NumberCardColor::Green => 1,
        NumberCardColor::Black => 2,
    }
}

fn dragon_index(card: &SpecialCardType) -> (result: usize)
    ensures
        result == card.ordinal(),
        result < 3,
{
    match card {
        SpecialCardType::Zhong => 0,
        SpecialCardType::Bai => 1,
        SpecialCardType::Fa => 2,
    }
}

fn suit_of(index: usize) -> (result: NumberCardColor)
    requires
        index < 3,
    ensures
        result == suit_at(index as int),
{
    if index == 0 {
        NumberCardColor::Red
    } else if index == 1 {
        NumberCardColor::Green
    } else {
        NumberCardColor::Black
    }
}

fn dragon_of(index: usize) -> (result: SpecialCardType)
    requires
        index < 3,
    ensures
        result == dragon_at(index as int),
{
    if index == 0 {
        SpecialCardType::Zhong
    } else if index == 1 {
        SpecialCardType::Bai
    } else {
        SpecialCardType::Fa
    }
}

fn mark_number(counters: &mut Counters, suit: usize, rank: usize)
    requires
        suit < 3,
        rank < 9,
    ensures
        final(counters).tally() == (Tally {
            numbers: old(counters).tally().numbers.update(
                suit as int,
                old(counters).tally().numbers[suit as int].update(rank as int, true),
            ),
            ..old(counters).tally()
        }),
        final(counters).bounded() == old(counters).bounded(),
        final(counters).unknown_blocked == old(counters).unknown_blocked,
{
    let mut row = counters.numbers[suit];
    row[rank] = true;
    counters.numbers[suit] = row;
    proof {
        let wanted = Tally {
            numbers: old(counters).tally().numbers.update(
                suit as int,
                old(counters).tally().numbers[suit as int].update(rank as int, true),
            ),
            ..old(counters).tally()
        };
        assert(counters.tally().numbers =~= wanted.numbers) by {
            assert forall|s: int| 0 <= s < 3 implies #[trigger] counters.tally().numbers[s]
                =~= wanted.numbers[s] by {
            }
        }
        assert(counters.tally().specials =~= wanted.specials);
    }
}

fn handle_number_card(card: &NumberCard, counters: &mut Counters) -> (result: Result<(), Error>)
    ensures
        match tally_number(old(counters).tally(), *card) {
            Ok(tally) => result is Ok && final(counters).tally() == tally,
            Err(error) => result == Err::<(), Error>(error),
        },
        final(counters).bounded() == old(counters).bounded(),
        final(counters).unknown_blocked == old(counters).unknown_blocked,
{
    if card.value > 9 || card.value < 1 {
        return Err(Error::ErraneousCard(*card));
    }
    let suit = suit_index(&card.suit);
    let rank = (card.value - 1) as usize;
    if counters.numbers[suit][rank] {
        return Err(Error::CardDouble(CardType::Number(*card)));
    }
    mark_number(counters, suit, rank);
    Ok(())
}

fn handle_special_card(card: &SpecialCardType, counters: &mut Counters) -> (result: Result<
    (),
    Error,
>)
    requires
        old(counters).bounded(),
    ensures
        match tally_special(old(counters).tally(), *card) {
            Ok(tally) => result is Ok && final(counters).tally() == tally,
            Err(error) => result == Err::<(), Error>(error),
        },
        final(counters).bounded(),
        final(counters).unknown_blocked == old(counters).unknown_blocked,
{
    let kind = dragon_index(card);
    if counters.specials[kind] > 4 {
        return Err(Error::CardDouble(CardType::Special(*card)));
    }
    let count: i8 = counters.specials[kind] + 1;
    counters.specials[kind] = count;
    proof {
        let wanted = tally_special(old(counters).tally(), *card)->Ok_0;
        assert(counters.tally().specials =~= wanted.specials);
        assert(counters.tally().numbers =~= wanted.numbers);
    }
    Ok(())
}

fn handle_card(card: &CardType, counters: &mut Counters) -> (result: Result<(), Error>)
    requires
        old(counters).bounded(),
    ensures
        match tally_card(old(counters).tally(), *card) {
            Ok(tally) => result is Ok && final(counters).tally() == tally,
            Err(error) => result == Err::<(), Error>(error),
        },
        final(counters).bounded(),
        final(counters).unknown_blocked == old(counters).unknown_blocked,
{
    match card {
        CardType::Number(number_card) => handle_number_card(number_card, counters),
        CardType::Special(card_type) => handle_special_card(card_type, counters),
        CardType::Hua => {
            if counters.hua_exists {
                Err(Error::CardDouble(CardType::Hua))
            } else {
                counters.hua_exists = true;
                proof {
                    let wanted = tally_card(old(counters).tally(), *card)->Ok_0;
                    assert(counters.tally().specials =~= wanted.specials);
                    assert(counters.tally().numbers =~= wanted.numbers);
                }
                Ok(())
            }
        },
    }
}

fn handle_column(cards: &Vec<CardType>, counters: &mut Counters) -> (result: Result<(), Error>)
    requires
        old(counters).bounded(),
    ensures
        match tally_cards(old(counters).tally(), cards@) {
            Ok(tally) => result is Ok && final(counters).tally() == tally,
            Err(error) => result == Err::<(), Error>(error),
        },
        final(counters).bounded(),
        final(counters).unknown_blocked == old(counters).unknown_blocked,
{
    let mut i: usize = 0;
    assert(cards@.subrange(0, 0) =~= Seq::<CardType>::empty());
    while i < cards.len()
        invariant
            i <= cards@.len(),
            counters.bounded(),
            counters.unknown_blocked == old(counters).unknown_blocked,
            tally_cards(old(counters).tally(), cards@.subrange(0, i as int)) == Ok::<
                Tally,
                Error,
            >(counters.tally()),
        decreases cards@.len() - i,
    {
        proof {
            assert(cards@.subrange(0, i as int + 1).drop_last() =~= cards@.subrange(0, i as int));
            assert(cards@.subrange(0, i as int + 1).last() == cards@[i as int]);
        }
        match handle_card(&cards[i], counters) {
            Ok(()) => {},
            Err(error) => {
                proof {
                    lemma_tally_cards_error(
                        old(counters).tally(),
                        cards@,
                        i as int + 1,
                        error,
                    );
                }
                return Err(error);
            },
        }
        i = i + 1;
    }
    assert(cards@.subrange(0, cards@.len() as int) =~= cards@);
    Ok(())
}

/// An error that the first cards of a column give stays the error of the column.
proof fn lemma_tally_cards_error(tally: Tally, cards: Seq<CardType>, count: int, error: Error)
    requires
        0 <= count <= cards.len(),
        tally_cards(tally, cards.subrange(0, count)) == Err::<Tally, Error>(error),
    ensures
        tally_cards(tally, cards) == Err::<Tally, Error>(error),
    decreases cards.len() - count,
{
    if count < cards.len() {
        assert(cards.subrange(0, count + 1).drop_last() =~= cards.subrange(0, count));
        lemma_tally_cards_error(tally, cards, count + 1, error);
    } else {
        assert(cards.subrange(0, count) =~= cards);
    }
}

impl Default for Board {
    /// The board after a game: the field is empty, the goal piles hold the
    /// nines and dragons block the bunker; only the flower is not set.
    fn default() -> (result: Self)
        ensures
            forall|i: int| 0 <= i < 8 ==> (#[trigger] result@.field[i]).len() == 0,
            result@.goal == seq![
                Some(NumberCard { value: 9, suit: NumberCardColor::Black }),
                Some(NumberCard { value: 9, suit: NumberCardColor::Red }),
                Some(NumberCard { value: 9, suit: NumberCardColor::Green }),
            ],
            !result@.hua_set,
            result@.bunker == seq![
                BunkerSlot::Blocked(Some(SpecialCardType::Bai)),
                BunkerSlot::Blocked(Some(SpecialCardType::Zhong)),
                BunkerSlot::Blocked(Some(SpecialCardType::Fa)),
            ],
    {
        let result = Self {
            field: [
                Vec::new(),
                Vec::new(),
                Vec::new(),
                Vec::new(),
                Vec::new(),
                Vec::new(),
                Vec::new(),
                Vec::new(),
            ],
            goal: [
                Some(NumberCard { value: 9, suit: NumberCardColor::Black }),
                Some(NumberCard { value: 9, suit: NumberCardColor::Red }),
                Some(NumberCard { value: 9, suit: NumberCardColor::Green }),
            ],
            hua_set: false,
            bunker: [
                BunkerSlot::Blocked(Some(SpecialCardType::Bai)),
                BunkerSlot::Blocked(Some(SpecialCardType::Zhong)),
                BunkerSlot::Blocked(Some(SpecialCardType::Fa)),
            ],
        };
        assert(result@.goal =~= seq![
            Some(NumberCard { value: 9, suit: NumberCardColor::Black }),
            Some(NumberCard { value: 9, suit: NumberCardColor::Red }),
            Some(NumberCard { value: 9, suit: NumberCardColor::Green }),
        ]);
        assert(result@.bunker =~= seq![
            BunkerSlot::Blocked(Some(SpecialCardType::Bai)),
            BunkerSlot::Blocked(Some(SpecialCardType::Zhong)),
            BunkerSlot::Blocked(Some(SpecialCardType::Fa)),
        ]);
        result
    }
}

impl Board {
    /// A board with the same cards.
    pub fn duplicate(&self) -> (result: Self)
        ensures
            result@ == self@,
    {
        let result = Board {
            field: [
                self.field[0].clone(),
                self.field[1].clone(),
                self.field[2].clone(),
                self.field[3].clone(),
                self.field[4].clone(),
                self.field[5].clone(),
                self.field[6].clone(),
                self.field[7].clone(),
            ],
            goal: self.goal,
            hua_set: self.hua_set,
            bunker: self.bunker,
        };
        assert(result@.field =~= self@.field);
        result
    }

    /// The rank of the top card of the first goal pile of the suit, or 0.
    #[must_use]
    pub fn goal_value(&self, suit: &NumberCardColor) -> (result: u8)
        ensures
            result == spec_goal_value(self@.goal, *suit),
    {
        let mut i: usize = 0;
        assert(self@.goal.subrange(0, 3) =~= self@.goal);
        while i < 3
            invariant
                i <= 3,
                self@.goal.len() == 3,
                spec_goal_value(self@.goal, *suit) == spec_goal_value(
                    self@.goal.subrange(i as int, 3),
                    *suit,
                ),
            decreases 3 - i,
        {
            let ghost rest = self@.goal.subrange(i as int, 3);
            assert(rest[0] == self@.goal[i as int]);
            assert(rest.drop_first() =~= self@.goal.subrange(i as int + 1, 3));
            if let Some(card) = self.goal[i] {
                if card.suit == *suit {
                    return card.value;
                }
            }
            i = i + 1;
        }
        0
    }

    /// The cards on top of the columns and in the bunker, with their places.
    pub fn movable_cards(&self) -> (result: Vec<(PositionNoGoal, CardType)>)
        ensures
            result@ == spec_movable_cards(self@),
            result@.len() <= 11,
            forall|k: int| 0 <= k < result@.len() ==> on_board((#[trigger] result@[k]).0),
    {
        let mut result: Vec<(PositionNoGoal, CardType)> = Vec::new();
        let mut index: u8 = 0;
        while index < 3
            invariant
                index <= 3,
                result@ == spec_movable_bunker(self@.bunker, index as nat),
                result@.len() <= index,
                forall|k: int| 0 <= k < result@.len() ==> on_board((#[trigger] result@[k]).0),
            decreases 3 - index,
        {
            if let BunkerSlot::Stash(card) = self.bunker[index as usize] {
                result.push((PositionNoGoal::Bunker { slot_index: index }, card.add_hua()));
            }
            index = index + 1;
        }
        let ghost from_bunker = result@;
        let mut column_index: u8 = 0;
        while column_index < 8
            invariant
                column_index <= 8,
                from_bunker.len() <= 3,
                result@ == from_bunker + spec_movable_field(self@.field, column_index as nat),
                result@.len() <= 3 + column_index,
                forall|k: int| 0 <= k < result@.len() ==> on_board((#[trigger] result@[k]).0),
            decreases 8 - column_index,
        {
            let row = &self.field[column_index as usize];
            if row.len() > 0 {
                let top = row[row.len() - 1];
                let ghost before = result@;
                proof {
                    lemma_at_wraps(column_index as int, row@.len() - 1);
                    FieldPosition::lemma_at(column_index as int, row@.len() - 1);
                }
                result.push(
                    (
                        PositionNoGoal::Field(
                            FieldPosition::new(column_index, ((row.len() - 1) % 256) as u8),
                        ),
                        top,
                    ),
                );
                assert(result@ =~= from_bunker + spec_movable_field(
                    self@.field,
                    (column_index + 1) as nat,
                ));
            }
            column_index = column_index + 1;
        }
        result
    }

    /// Whether every card of the deck is on the board once.
    #[verifier::loop_isolation(false)]
    pub fn check(&self) -> (result: Result<(), Error>)
        ensures
            result == spec_check(self@),
    {
        let mut counters = Counters {
            specials: [0, 0, 0],
            numbers: [[false; 9]; 3],
            hua_exists: self.hua_set,
            unknown_blocked: 0,
        };
        proof {
            assert(counters.tally().specials =~= tally_start(self@).specials);
            assert(counters.tally().numbers =~= tally_start(self@).numbers) by {
                assert forall|s: int| 0 <= s < 3 implies #[trigger] counters.tally().numbers[s]
                    =~= tally_start(self@).numbers[s] by {
                }
            }
        }
        let mut column: usize = 0;
        while column < 8
            invariant
                column <= 8,
                counters.bounded(),
                counters.unknown_blocked == 0,
                tally_columns(tally_start(self@), self@.field, column as nat) == Ok::<
                    Tally,
                    Error,
                >(counters.tally()),
            decreases 8 - column,
        {
            match handle_column(&self.field[column], &mut counters) {
                Ok(()) => {},
                Err(error) => {
                    proof {
                        lemma_tally_columns_error(
                            tally_start(self@),
                            self@.field,
                            column as nat + 1,
                            error,
                        );
                    }
                    return Err(error);
                },
            }
            column = column + 1;
        }
        let ghost after_field = counters.tally();
        let mut slot: usize = 0;
        while slot < 3
            invariant
                slot <= 3,
                counters.bounded(),
                counters.unknown_blocked <= slot,
                tally_slots(after_field, self@.bunker, slot as nat) == Ok::<Tally, Error>(
                    counters.tally(),
                ),
            decreases 3 - slot,
        {
            let ghost before = counters.tally();
            let outcome = match self.bunker[slot] {
                BunkerSlot::Blocked(None) => {
                    counters.unknown_blocked = counters.unknown_blocked + 1;
                    proof {
                        let wanted = tally_slot(before, self@.bunker[slot as int])->Ok_0;
                        assert(counters.tally().specials =~= wanted.specials);
                        assert(counters.tally().numbers =~= wanted.numbers);
                    }
                    Ok(())
                },
                BunkerSlot::Blocked(Some(special_card_type)) => {
                    let mut times: usize = 0;
                    let mut outcome: Result<(), Error> = Ok(());
                    while times < 4 && outcome.is_ok()
                        invariant
                            times <= 4,
                            counters.bounded(),
                            counters.unknown_blocked <= slot,
                            match tally_specials(before, special_card_type, times as nat) {
                                Ok(tally) => outcome is Ok && counters.tally() == tally,
                                Err(error) => outcome == Err::<(), Error>(error),
                            },
                        decreases 4 - times,
                    {
                        outcome = handle_special_card(&special_card_type, &mut counters);
                        times = times + 1;
                    }
                    proof {
                        if outcome is Err {
                            lemma_tally_specials_error(
                                before,
                                special_card_type,
                                times as nat,
                                4,
                                outcome->Err_0,
                            );
                        }
                    }
                    outcome
                },
                BunkerSlot::Stash(CardTypeNoHua::Special(special_card_type)) => {
                    handle_special_card(&special_card_type, &mut counters)
                },
                BunkerSlot::Stash(CardTypeNoHua::Number(number_card)) => {
                    handle_number_card(&number_card, &mut counters)
                },
                BunkerSlot::Empty => Ok(()),
            };
            match outcome {
                Ok(()) => {},
                Err(error) => {
                    proof {
                        lemma_tally_slots_error(after_field, self@.bunker, slot as nat + 1, error);
                    }
                    return Err(error);
                },
            }
            slot = slot + 1;
        }
        let ghost after_bunker = counters.tally();
        let mut pile: usize = 0;
        while pile < 3
            invariant
                pile <= 3,
                counters.bounded(),
                tally_goals(after_bunker, self@.goal, pile as nat) == Ok::<Tally, Error>(
                    counters.tally(),
                ),
            decreases 3 - pile,
        {
            let ghost before = counters.tally();
            if let Some(card) = self.goal[pile] {
                let suit = suit_index(&card.suit);
                let mut i: u8 = 0;
                while i < card.value
                    invariant
                        i <= card.value,
                        suit == card.suit.ordinal(),
                        counters.bounded(),
                        tally_goal_ranks(before, card, i as nat) == Ok::<Tally, Error>(
                            counters.tally(),
                        ),
                    decreases card.value - i,
                {
                    if i >= 9 || counters.numbers[suit][i as usize] {
                        proof {
                            lemma_tally_goal_ranks_error(
                                before,
                                card,
                                i as nat + 1,
                                card.value as nat,
                                Error::GoalTooHigh(card),
                            );
                            lemma_tally_goals_error(
                                after_bunker,
                                self@.goal,
                                pile as nat + 1,
                                Error::GoalTooHigh(card),
                            );
                        }
                        return Err(Error::GoalTooHigh(card));
                    }
                    mark_number(&mut counters, suit, i as usize);
                    i = i + 1;
                }
            }
            pile = pile + 1;
        }
        let ghost tally = counters.tally();
        let mut unknown = counters.unknown_blocked;
        let mut kind: usize = 0;
        while kind < 3
            invariant
                kind <= 3,
                tally == counters.tally(),
                missing_dragon(tally.specials, tally.unknown_blocked, kind as nat) == (
                    None::<SpecialCardType>,
                    unknown as int,
                ),
            decreases 3 - kind,
        {
            if counters.specials[kind] != 4 {
                if unknown == 0 {
                    proof {
                        lemma_missing_dragon_stays(
                            tally.specials,
                            tally.unknown_blocked,
                            kind as nat + 1,
                            3,
                        );
                    }
                    return Err(Error::CardMissing(CardType::Special(dragon_of(kind))));
                }
                unknown = unknown - 1;
            }
            kind = kind + 1;
        }
        let mut place: usize = 0;
        while place < 27
            invariant
                place <= 27,
                tally == counters.tally(),
                missing_number(tally.numbers, place as nat) is None,
            decreases 27 - place,
        {
            let suit = place / 9;
            let rank = place % 9;
            if !counters.numbers[suit][rank] {
                proof {
                    lemma_missing_number_stays(tally.numbers, place as nat + 1, 27);
                }
                return Err(
                    Error::CardMissing(
                        CardType::Number(NumberCard { suit: suit_of(suit), value: (rank + 1) as u8 }),
                    ),
                );
            }
            place = place + 1;
        }
        Ok(())
    }

    /// Whether nothing is left to do on the board.
    #[must_use]
    pub fn solved(&self) -> (result: bool)
        ensures
            result == spec_solved(self@),
    {
        let mut i: usize = 0;
        while i < 8
            invariant
                i <= 8,
                forall|k: int| 0 <= k < i ==> (#[trigger] self@.field[k]).len() == 0,
            decreases 8 - i,
        {
            if self.field[i].len() != 0 {
                assert(self@.field[i as int].len() != 0);
                return false;
            }
            i = i + 1;
        }
        let mut i: usize = 0;
        while i < 3
            invariant
                i <= 3,
                forall|k: int| 0 <= k < i ==> #[trigger] self@.bunker[k] is Blocked,
            decreases 3 - i,
        {
            if let BunkerSlot::Blocked(_) = self.bunker[i] {
            } else {
                assert(!(self@.bunker[i as int] is Blocked));
                return false;
            }
            i = i + 1;
        }
        if !self.hua_set {
            return false;
        }
        let mut i: usize = 0;
        while i < 3
            invariant
                i <= 3,
                forall|k: int| 0 <= k < i ==> #[trigger] self@.goal[k] is Some,
            decreases 3 - i,
        {
            if self.goal[i].is_none() {
                assert(self@.goal[i as int] is None);
                return false;
            }
            i = i + 1;
        }
        let mut color: usize = 0;
        while color < 3
            invariant
                color <= 3,
                forall|k: int| 0 <= k < 3 ==> #[trigger] self@.goal[k] is Some,
                color > 0 ==> pile_of(self@.goal, NumberCardColor::Red),
                color > 1 ==> pile_of(self@.goal, NumberCardColor::Green),
                color > 2 ==> pile_of(self@.goal, NumberCardColor::Black),
            decreases 3 - color,
        {
            let wanted = suit_of(color);
            let mut found = false;
            let mut i: usize = 0;
            while i < 3
                invariant
                    i <= 3,
                    wanted == suit_at(color as int),
                    found == exists|k: int|
                        0 <= k < i && (#[trigger] self@.goal[k] matches Some(card) && card.suit
                            == wanted),
                decreases 3 - i,
            {
                if let Some(card) = self.goal[i] {
                    if card.suit == wanted {
                        assert(self@.goal[i as int] matches Some(card) && card.suit == wanted);
                        found = true;
                    }
                }
                i = i + 1;
            }
            if !found {
                return false;
            }
            color = color + 1;
        }
        let mut i: usize = 0;
        while i < 3
            invariant
                i <= 3,
                forall|k: int| 0 <= k < 3 ==> #[trigger] self@.goal[k] is Some,
                forall|k: int|
                    0 <= k < i ==> (#[trigger] self@.goal[k] matches Some(card) && card.value == 9),
            decreases 3 - i,
        {
            if let Some(card) = self.goal[i] {
                if card.value != 9 {
                    assert(!(self@.goal[i as int] matches Some(card) && card.value == 9));
                    return false;
                }
            }
            i = i + 1;
        }
        true
    }
}

/// A row that is given modulo 256 names the same cell.
proof fn lemma_at_wraps(column: int, row: int)
    requires
        0 <= row,
    ensures
        FieldPosition::at(column, row % 256) == FieldPosition::at(column, row),
{
    FieldPosition::lemma_at(column, row);
    FieldPosition::lemma_at(column, row % 256);
    FieldPosition::at(column, row).lemma_parts();
    FieldPosition::at(column, row % 256).lemma_parts();
    assert((row % 256) % 16 == row % 16);
}

proof fn lemma_tally_columns_error(
    tally: Tally,
    field: Seq<Seq<CardType>>,
    count: nat,
    error: Error,
)
    requires
        count <= 8,
        tally_columns(tally, field, count) == Err::<Tally, Error>(error),
    ensures
        tally_columns(tally, field, 8) == Err::<Tally, Error>(error),
    decreases 8 - count,
{
    if count < 8 {
        lemma_tally_columns_error(tally, field, count + 1, error);
    }
}

proof fn lemma_tally_slots_error(tally: Tally, bunker: Seq<BunkerSlot>, count: nat, error: Error)
    requires
        count <= 3,
        tally_slots(tally, bunker, count) == Err::<Tally, Error>(error),
    ensures
        tally_slots(tally, bunker, 3) == Err::<Tally, Error>(error),
    decreases 3 - count,
{
    if count < 3 {
        lemma_tally_slots_error(tally, bunker, count + 1, error);
    }
}

proof fn lemma_tally_specials_error(
    tally: Tally,
    card: SpecialCardType,
    count: nat,
    times: nat,
    error: Error,
)
    requires
        count <= times,
        tally_specials(tally, card, count) == Err::<Tally, Error>(error),
    ensures
        tally_specials(tally, card, times) == Err::<Tally, Error>(error),
    decreases times - count,
{
    if count < times {
        lemma_tally_specials_error(tally, card, count + 1, times, error);
    }
}

proof fn lemma_tally_goal_ranks_error(
    tally: Tally,
    card: NumberCard,
    count: nat,
    upto: nat,
    error: Error,
)
    requires
        count <= upto,
        tally_goal_ranks(tally, card, count) == Err::<Tally, Error>(error),
    ensures
        tally_goal_ranks(tally, card, upto) == Err::<Tally, Error>(error),
    decreases upto - count,
{
    if count < upto {
        lemma_tally_goal_ranks_error(tally, card, count + 1, upto, error);
    }
}

proof fn lemma_tally_goals_error(
    tally: Tally,
    goal: Seq<Option<NumberCard>>,
    count: nat,
    error: Error,
)
    requires
        count <= 3,
        tally_goals(tally, goal, count) == Err::<Tally, Error>(error),
    ensures
        tally_goals(tally, goal, 3) == Err::<Tally, Error>(error),
    decreases 3 - count,
{
    if count < 3 {
        lemma_tally_goals_error(tally, goal, count + 1, error);
    }
}

proof fn lemma_missing_dragon_stays(specials: Seq<int>, unknown: int, count: nat, upto: nat)
    requires
        count <= upto,
        missing_dragon(specials, unknown, count).0 is Some,
    ensures
        missing_dragon(specials, unknown, upto) == missing_dragon(specials, unknown, count),
    decreases upto - count,
{
    if count < upto {
        lemma_missing_dragon_stays(specials, unknown, count + 1, upto);
    }
}

proof fn lemma_missing_number_stays(numbers: Seq<Seq<bool>>, count: nat, upto: nat)
    requires
        count <= upto,
        missing_number(numbers, count) is Some,
    ensures
        missing_number(numbers, upto) == missing_number(numbers, count),
    decreases upto - count,
{
    if count < upto {
        lemma_missing_number_stays(numbers, count + 1, upto);
    }
}

} // verus!
