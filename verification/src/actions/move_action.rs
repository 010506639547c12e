use vstd::prelude::*;
use crate::board::cards::{CardType, NumberCard, NumberCardColor};
use crate::board::fieldposition::FieldPosition;
use crate::text::{append, decimal, number_text};

verus! {

/// Place of a suit in the cycle Red, Green, Black.
pub open spec fn suit_cycle_index(suit: NumberCardColor) -> int {
    match suit {
        NumberCardColor::Red => 0,
        NumberCardColor::Green => 1,
        NumberCardColor::Black => 2,
    }
}

/// The suit at a place of the cycle Red, Green, Black.
pub open spec fn suit_at_cycle_index(index: int) -> NumberCardColor {
    if index % 3 == 0 {
        NumberCardColor::Red
    } else if index % 3 == 1 {
        NumberCardColor::Green
    } else {
        NumberCardColor::Black
    }
}

/// The suit that lies on `bottom_suit`: the next of the cycle where `bit` is
/// zero, the one after it otherwise.
pub open spec fn spec_alternate_card(bottom_suit: NumberCardColor, bit: u8) -> NumberCardColor {
    suit_at_cycle_index(suit_cycle_index(bottom_suit) + (if bit == 0 { 0int } else { 1int }) + 1)
}

/// The bit that tells `current_card` from the other suit that may lie on
/// `last_card`: zero for the next suit of the cycle.
pub open spec fn spec_bit_card(last_card: NumberCardColor, current_card: NumberCardColor) -> u8 {
    if (suit_cycle_index(last_card) + 1) % 3 == suit_cycle_index(current_card) {
        0
    } else {
        1
    }
}

/// Suit of the card `index` places above a bottom card of suit `bottom_suit`,
/// where bit `i` of `pattern` chooses the suit of card `i + 1`.
pub open spec fn stack_suit(bottom_suit: NumberCardColor, pattern: u8, index: nat)
    -> NumberCardColor
    decreases index,
{
    if index == 0 {
        bottom_suit
    } else {
        let below = stack_suit(bottom_suit, pattern, (index - 1) as nat);
        spec_alternate_card(below, pattern & (1u8 << ((index - 1) as u8)))
    }
}

/// The cards that a bottom card, a length and a pattern stand for. Ranks fall
/// by one from card to card.
pub open spec fn stack_cards(start_card: CardType, stack_len: nat, pattern: u8) -> Seq<CardType> {
    match start_card {
        CardType::Number(bottom) => Seq::new(
            stack_len,
            |i: int|
                CardType::Number(
                    NumberCard {
                        value: (bottom.value - i) as u8,
                        suit: stack_suit(bottom.suit, pattern, i as nat),
                    },
                ),
        ),
        _ => seq![start_card],
    }
}

/// Cards that can be moved as one: a single card of any kind, or up to nine
/// number cards whose ranks fall by one and whose suits change from card to card.
pub open spec fn movable_stack(cards: Seq<CardType>) -> bool {
    &&& 1 <= cards.len() <= 9
    &&& cards.len() > 1 ==> {
        &&& forall|i: int| 0 <= i < cards.len() ==> #[trigger] cards[i] is Number
        &&& forall|i: int|
            0 <= i < cards.len() - 1 ==> {
                &&& (#[trigger] cards[i + 1])->Number_0.value + 1 == cards[i]->Number_0.value
                &&& cards[i + 1]->Number_0.suit != cards[i]->Number_0.suit
            }
    }
}

/// What a stack of cards needs no more than its length for: whether bottom
/// card, length and pattern fit together.
pub open spec fn stack_shape(start_card: CardType, stack_len: u8) -> bool {
    &&& stack_len >= 1
    &&& stack_len > 1 ==> start_card is Number && stack_len <= 9 && stack_len <= start_card->Number_0.value
        + 1
}

/// A slide of a stack of cards from one field cell to another.
#[derive(Debug, Clone, Copy, PartialEq, Eq, Structural)]
pub struct Move {
    start_card: CardType,
    stack_len: u8,
    pattern: u8,
    source: FieldPosition,
    destination: FieldPosition,
}

/// The suit that lies on `bottom_suit`: the next of the cycle Red, Green, Black where
/// `bit` is zero, the one after it otherwise.
pub fn alternate_card(bottom_suit: &NumberCardColor, bit: u8) -> (result: NumberCardColor)
    ensures
        result == spec_alternate_card(*bottom_suit, bit),
        result != *bottom_suit,
{
    let pos: u8 = match bottom_suit {
        NumberCardColor::Red => 0,
        NumberCardColor::Green => 1,
        NumberCardColor::Black => 2,
    };
    let shift_value: u8 = if bit == 0 { 0 } else { 1 };
    let index: u8 = (pos + shift_value + 1) % 3;
    if index == 0 {
        NumberCardColor::Red
    } else if index == 1 {
        NumberCardColor::Green
    } else {
        NumberCardColor::Black
    }
}

/// The bit that tells `current_card` from the other suit that may lie on `last_card`.
pub fn bit_card(last_card: &NumberCardColor, current_card: &NumberCardColor) -> (result: u8)
    ensures
        result == spec_bit_card(*last_card, *current_card),
        result <= 1,
        *current_card != *last_card ==> spec_alternate_card(*last_card, result) == *current_card,
{
    let last_pos: u8 = match last_card {
        NumberCardColor::Red => 0,
        NumberCardColor::Green => 1,
        NumberCardColor::Black => 2,
    };
    let current_pos: u8 = match current_card {
        NumberCardColor::Red => 0,
        NumberCardColor::Green => 1,
        NumberCardColor::Black => 2,
    };
    if (last_pos + 1) % 3 == current_pos {
        0
    } else {
        1
    }
}

/// The pattern that yields the suits of the first `count + 1` cards of a
/// stack of number cards from the suit of the bottom card.
pub open spec fn pattern_of(cards: Seq<CardType>, count: nat) -> u8
    decreases count,
{
    if count == 0 {
        0
    } else {
        pattern_of(cards, (count - 1) as nat) | (spec_bit_card(
            cards[count - 1]->Number_0.suit,
            cards[count as int]->Number_0.suit,
        ) << ((count - 1) as u8))
    }
}

/// Whether bit `index` of `pattern` is the one that yields the suit of card
/// `index + 1` of `cards` from the suit of card `index`.
pub open spec fn pattern_bit_fits(cards: Seq<CardType>, pattern: u8, index: int) -> bool {
    (pattern & (1u8 << (index as u8)) == 0) == (spec_bit_card(
        cards[index]->Number_0.suit,
        cards[index + 1]->Number_0.suit,
    ) == 0)
}

proof fn lemma_pattern_step(pattern: u8, bit: u8, index: u8, other: u8)
    requires
        bit <= 1,
        index < 8,
        other < 8,
        pattern & (1u8 << index) == 0,
    ensures
        other != index ==> (pattern | (bit << index)) & (1u8 << other) == pattern & (1u8 << other),
        ((pattern | (bit << index)) & (1u8 << index) == 0) == (bit == 0),
{
    assert(other != index ==> (pattern | (bit << index)) & (1u8 << other) == pattern & (1u8
        << other)) by (bit_vector)
        requires
            bit <= 1,
            index < 8,
            other < 8,
    ;
    assert(((pattern | (bit << index)) & (1u8 << index) == 0) == (bit == 0)) by (bit_vector)
        requires
            bit <= 1,
            index < 8,
            pattern & (1u8 << index) == 0,
    ;
}

proof fn lemma_stack_values(cards: Seq<CardType>, index: int)
    requires
        movable_stack(cards),
        cards.len() > 1,
        0 <= index < cards.len(),
    ensures
        cards[index]->Number_0.value + index == cards[0]->Number_0.value,
    decreases index,
{
    if index > 0 {
        lemma_stack_values(cards, index - 1);
        assert(cards[(index - 1) + 1]->Number_0.value + 1 == cards[index - 1]->Number_0.value);
    }
}

proof fn lemma_stack_suits(cards: Seq<CardType>, pattern: u8, index: int)
    requires
        movable_stack(cards),
        cards.len() > 1,
        0 <= index < cards.len(),
        forall|k: int| 0 <= k < cards.len() - 1 ==> pattern_bit_fits(cards, pattern, k),
    ensures
        stack_suit(cards[0]->Number_0.suit, pattern, index as nat) == cards[index]->Number_0.suit,
    decreases index,
{
    if index > 0 {
        lemma_stack_suits(cards, pattern, index - 1);
        assert(pattern_bit_fits(cards, pattern, index - 1));
        assert(cards[(index - 1) + 1]->Number_0.suit != cards[index - 1]->Number_0.suit);
    }
}

impl Move {
    #[verifier::type_invariant]
    spec fn well_formed(self) -> bool {
        stack_shape(self.start_card, self.stack_len)
    }

    /// The bottom card.
    pub closed spec fn spec_start_card(self) -> CardType {
        self.start_card
    }

    /// How many cards move.
    pub closed spec fn spec_stack_len(self) -> u8 {
        self.stack_len
    }

    /// The bits that choose the suits above the bottom card.
    pub closed spec fn spec_pattern(self) -> u8 {
        self.pattern
    }

    /// The cell of the bottom card before the move.
    pub closed spec fn spec_source(self) -> FieldPosition {
        self.source
    }

    /// The cell of the bottom card after the move.
    pub closed spec fn spec_destination(self) -> FieldPosition {
        self.destination
    }

    /// The same cards to the same cell, taken from `source`.
    pub closed spec fn spec_with_source(self, source: FieldPosition) -> Move {
        Move { source, ..self }
    }

    /// The move of `cards`, bottom card first, from `source` to `destination`.
    pub closed spec fn spec_new(
        source: FieldPosition,
        destination: FieldPosition,
        cards: Seq<CardType>,
    ) -> Move {
        Move {
            start_card: cards[0],
            stack_len: cards.len() as u8,
            pattern: pattern_of(cards, (cards.len() - 1) as nat),
            source,
            destination,
        }
    }

    /// The move of the single card `card` from `source` to `destination`.
    pub closed spec fn spec_single(
        source: FieldPosition,
        destination: FieldPosition,
        card: CardType,
    ) -> Move {
        Move { start_card: card, stack_len: 1, pattern: 0, source, destination }
    }

    /// What `spec_with_source` and `spec_single` yield, part by part.
    pub proof fn lemma_spec_parts(
        self,
        source: FieldPosition,
        destination: FieldPosition,
        card: CardType,
    )
        ensures
            self.spec_with_source(source).spec_start_card() == self.spec_start_card(),
            self.spec_with_source(source).spec_stack_len() == self.spec_stack_len(),
            self.spec_with_source(source).spec_pattern() == self.spec_pattern(),
            self.spec_with_source(source).spec_source() == source,
            self.spec_with_source(source).spec_destination() == self.spec_destination(),
            Self::spec_single(source, destination, card).spec_start_card() == card,
            Self::spec_single(source, destination, card).spec_stack_len() == 1,
            Self::spec_single(source, destination, card).spec_pattern() == 0,
            Self::spec_single(source, destination, card).spec_source() == source,
            Self::spec_single(source, destination, card).spec_destination() == destination,
            Self::spec_single(source, destination, card).valid(),
            Self::spec_single(source, destination, card).spec_cards() =~= seq![card],
    {
    }

    /// What every move in a running program satisfies.
    pub open spec fn valid(self) -> bool {
        stack_shape(self.spec_start_card(), self.spec_stack_len())
    }

    /// The cards that move, bottom card first.
    pub open spec fn spec_cards(self) -> Seq<CardType> {
        stack_cards(self.spec_start_card(), self.spec_stack_len() as nat, self.spec_pattern())
    }

    /// The cards that move, bottom card first.
    #[must_use]
    pub fn cards(&self) -> (result: Vec<CardType>)
        ensures
            self.valid(),
            result@ == self.spec_cards(),
            result@.len() == self.spec_stack_len(),
            result@[0] == self.spec_start_card(),
    {
        proof {
            use_type_invariant(self);
        }
        if let CardType::Number(NumberCard { value, suit }) = self.start_card {
            let mut result: Vec<CardType> = Vec::with_capacity(self.stack_len as usize);
            result.push(self.start_card);
            let mut last_suit: NumberCardColor = suit;
            let mut index: u8 = 1;
            while index < self.stack_len
                invariant
                    1 <= index <= self.stack_len <= 9,
                    self.stack_len <= value + 1,
                    self.start_card == CardType::Number(NumberCard { value, suit }),
                    last_suit == stack_suit(suit, self.pattern, (index - 1) as nat),
                    result@ == stack_cards(self.start_card, index as nat, self.pattern),
                decreases self.stack_len - index,
            {
                let new_color = alternate_card(&last_suit, self.pattern & (1u8 << (index - 1)));
                result.push(CardType::Number(NumberCard { suit: new_color, value: value - index }));
                last_suit = new_color;
                index = index + 1;
            }
            result
        } else {
            vec![self.start_card]
        }
    }

    /// The move in words: the card, or the number of cards where there
    /// are several, and from where to where they go.
    pub open spec fn spec_text(self) -> Seq<char> {
        "Move "@ + (if self.spec_stack_len() == 1 {
            self.spec_start_card().spec_text()
        } else {
            decimal(self.spec_stack_len() as nat) + " cards"@
        }) + " from "@ + self.spec_source().spec_text() + " to "@
            + self.spec_destination().spec_text()
    }

    /// The move in words.
    pub fn to_string(&self) -> (result: String)
        ensures
            result@ == self.spec_text(),
    {
        let mut result = "Move ".to_owned();
        if self.stack_len == 1 {
            append(&mut result, self.start_card.to_string().as_str());
        } else {
            append(&mut result, number_text(self.stack_len).as_str());
            append(&mut result, " cards");
        }
        append(&mut result, " from ");
        append(&mut result, self.source.to_string().as_str());
        append(&mut result, " to ");
        append(&mut result, self.destination.to_string().as_str());
        result
    }

    /// How many cards move.
    #[must_use]
    pub fn stack_len(&self) -> (result: u8)
        ensures
            self.valid(),
            result == self.spec_stack_len(),
            result >= 1,
    {
        proof {
            use_type_invariant(self);
        }
        self.stack_len
    }

    /// The cell of the bottom card before the move.
    #[must_use]
    pub fn source(&self) -> (result: FieldPosition)
        ensures
            result == self.spec_source(),
    {
        self.source
    }

    /// The cell of the bottom card after the move.
    #[must_use]
    pub fn destination(&self) -> (result: FieldPosition)
        ensures
            result == self.spec_destination(),
    {
        self.destination
    }

    /// The move of `cards`, bottom card first, from `source` to `destination`.
    #[must_use]
    pub fn new(source: FieldPosition, destination: FieldPosition, cards: &[CardType]) -> (result:
        Self)
        requires
            movable_stack(cards@),
        ensures
            result.valid(),
            result.spec_cards() == cards@,
            result.spec_start_card() == cards@[0],
            result.spec_stack_len() == cards@.len(),
            result.spec_source() == source,
            result.spec_destination() == destination,
            cards@.len() == 1 ==> result == Self::spec_single(source, destination, cards@[0]),
            result == Self::spec_new(source, destination, cards@),
    {
        let mut pattern: u8 = 0;
        let count: usize = cards.len();
        let mut index: u8 = 0;
        assert(forall|k: u8| k < 8 ==> 0u8 & (1u8 << k) == 0) by (bit_vector);
        while (index as usize) + 1 < count
            invariant
                movable_stack(cards@),
                count == cards@.len(),
                index <= 8,
                index == 0 ==> pattern == 0,
                pattern == pattern_of(cards@, index as nat),
                count <= 1 ==> index == 0,
                count > 1 ==> index < count,
                forall|k: int| 0 <= k < index ==> pattern_bit_fits(cards@, pattern, k),
                forall|k: u8| index <= k < 8 ==> pattern & (1u8 << k) == 0,
            decreases count - index,
        {
            let bit: u8 = match (&cards[index as usize], &cards[index as usize + 1]) {
                (CardType::Number(last_card), CardType::Number(card)) => bit_card(
                    &last_card.suit,
                    &card.suit,
                ),
                _ => 0,
            };
            let ghost before = pattern;
            pattern = pattern | (bit << index);
            proof {
                assert(cards@[index as int] is Number);
                assert(cards@[index as int + 1] is Number);
                assert forall|k: int| 0 <= k < index + 1 implies pattern_bit_fits(
                    cards@,
                    pattern,
                    k,
                ) by {
                    lemma_pattern_step(before, bit, index, k as u8);
                    if k < index {
                        assert(pattern_bit_fits(cards@, before, k));
                    }
                }
                assert forall|k: u8| index + 1 <= k < 8 implies pattern & (1u8 << k) == 0 by {
                    lemma_pattern_step(before, bit, index, k);
                }
            }
            index = index + 1;
        }
        let start_card = cards[0];
        proof {
            if count > 1 {
                assert(cards@[0] is Number);
                lemma_stack_values(cards@, count - 1);
                assert forall|i: int| 0 <= i < count implies stack_cards(
                    start_card,
                    count as nat,
                    pattern,
                )[i] == cards@[i] by {
                    lemma_stack_values(cards@, i);
                    lemma_stack_suits(cards@, pattern, i);
                    assert(cards@[i] is Number);
                }
                assert(stack_cards(start_card, count as nat, pattern) =~= cards@);
            } else {
                assert(stack_cards(start_card, count as nat, pattern) =~= cards@);
            }
        }
        Self { source, destination, start_card, stack_len: count as u8, pattern }
    }

    /// The bottom card.
    #[must_use]
    pub fn start_card(&self) -> (result: CardType)
        ensures
            result == self.spec_start_card(),
    {
        self.start_card
    }

    /// The bits that choose the suits above the bottom card.
    #[must_use]
    pub fn pattern(&self) -> (result: u8)
        ensures
            result == self.spec_pattern(),
    {
        self.pattern
    }

    /// The move with these parts, if bottom card and length fit together:
    /// several cards need a number card at the bottom, of a rank that
    /// leaves room for the cards above it, and are nine at most.
    #[must_use]
    pub fn from_parts(
        start_card: CardType,
        stack_len: u8,
        pattern: u8,
        source: FieldPosition,
        destination: FieldPosition,
    ) -> (result: Option<Self>)
        ensures
            result is Some == stack_shape(start_card, stack_len),
            result matches Some(action) ==> {
                &&& action.spec_start_card() == start_card
                &&& action.spec_stack_len() == stack_len
                &&& action.spec_pattern() == pattern
                &&& action.spec_source() == source
                &&& action.spec_destination() == destination
            },
    {
        if stack_len < 1 {
            return None;
        }
        if stack_len > 1 {
            match start_card {
                CardType::Number(card) => {
                    if stack_len > 9 || (card.value < 8 && stack_len > card.value + 1) {
                        return None;
                    }
                },
                _ => {
                    return None;
                },
            }
        }
        Some(Self { start_card, stack_len, pattern, source, destination })
    }

    /// The same cards to the same cell, taken from `source`.
    #[must_use]
    pub fn with_source(&self, source: FieldPosition) -> (result: Self)
        ensures
            result == self.spec_with_source(source),
            result.spec_start_card() == self.spec_start_card(),
            result.spec_stack_len() == self.spec_stack_len(),
            result.spec_pattern() == self.spec_pattern(),
            result.spec_source() == source,
            result.spec_destination() == self.spec_destination(),
    {
        proof {
            use_type_invariant(self);
        }
        Self {
            start_card: self.start_card,
            stack_len: self.stack_len,
            pattern: self.pattern,
            source,
            destination: self.destination,
        }
    }
}

} // verus!
