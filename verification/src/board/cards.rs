use vstd::prelude::*;
use crate::text::{append, decimal, number_text};

verus! {

/// The three dragon kinds.
#[derive(Debug, PartialEq, Eq, Hash, PartialOrd, Ord, Clone, Copy, Structural)]
pub enum SpecialCardType {
    Zhong,
    Bai,
    Fa,
}

/// The three suits of the number cards.
#[derive(Debug, PartialEq, Eq, PartialOrd, Ord, Hash, Clone, Copy, Structural)]
pub enum NumberCardColor {
    Red,
    Green,
    Black,
}

/// A number card: a suit and a rank, ranks of a well-formed card being 1 to 9.
#[derive(Debug, Clone, Copy, Eq, PartialEq, Hash, PartialOrd, Ord, Structural)]
pub struct NumberCard {
    pub value: u8,
    pub suit: NumberCardColor,
}

/// Any card that can lie on the field.
#[derive(Debug, Clone, Copy, Eq, PartialEq, Hash, Ord, PartialOrd, Structural)]
pub enum CardType {
    Hua,
    Number(NumberCard),
    Special(SpecialCardType),
}

/// Any card that can lie in a bunker slot: every card but the flower.
#[derive(Debug, Eq, PartialEq, Clone, Copy, Ord, PartialOrd, Hash, Structural)]
pub enum CardTypeNoHua {
    Number(NumberCard),
    Special(SpecialCardType),
}

impl SpecialCardType {
    /// The name of the dragon kind.
    pub open spec fn spec_text(self) -> Seq<char> {
        match self {
            SpecialCardType::Zhong => "Zhong"@,
            SpecialCardType::Bai => "Bai"@,
            SpecialCardType::Fa => "Fa"@,
        }
    }

    /// The name of the dragon kind.
    pub fn to_string(&self) -> (result: String)
        ensures
            result@ == self.spec_text(),
    {
        match self {
            SpecialCardType::Zhong => "Zhong".to_owned(),
            SpecialCardType::Bai => "Bai".to_owned(),
            SpecialCardType::Fa => "Fa".to_owned(),
        }
    }

    /// Position of the dragon kind in declaration order.
    pub open spec fn ordinal(self) -> int {
        match self {
            SpecialCardType::Zhong => 0,
            SpecialCardType::Bai => 1,
            SpecialCardType::Fa => 2,
        }
    }
}

impl NumberCardColor {
    /// The name of the suit.
    pub open spec fn spec_text(self) -> Seq<char> {
        match self {
            NumberCardColor::Red => "Red"@,
            NumberCardColor::Green => "Green"@,
            NumberCardColor::Black => "Black"@,
        }
    }

    /// The name of the suit.
    pub fn to_string(&self) -> (result: String)
        ensures
            result@ == self.spec_text(),
    {
        match self {
            NumberCardColor::Red => "Red".to_owned(),
            NumberCardColor::Green => "Green".to_owned(),
            NumberCardColor::Black => "Black".to_owned(),
        }
    }

    /// Position of the suit in declaration order.
    pub open spec fn ordinal(self) -> int {
        match self {
            NumberCardColor::Red => 0,
            NumberCardColor::Green => 1,
            NumberCardColor::Black => 2,
        }
    }
}

impl NumberCard {
    /// The suit and the rank, as in `Red 5`.
    pub open spec fn spec_text(self) -> Seq<char> {
        self.suit.spec_text() + " "@ + decimal(self.value as nat)
    }

    /// The suit and the rank, as in `Red 5`.
    pub fn to_string(&self) -> (result: String)
        ensures
            result@ == self.spec_text(),
    {
        let mut result = self.suit.to_string();
        append(&mut result, " ");
        append(&mut result, number_text(self.value).as_str());
        result
    }

    /// A card of the deck: its rank lies between 1 and 9.
    pub open spec fn in_deck(self) -> bool {
        1 <= self.value <= 9
    }
}

impl CardType {
    /// The name of the card.
    pub open spec fn spec_text(self) -> Seq<char> {
        match self {
            CardType::Hua => "Hua"@,
            CardType::Number(x) => x.spec_text(),
            CardType::Special(x) => x.spec_text(),
        }
    }

    /// The name of the card.
    pub fn to_string(&self) -> (result: String)
        ensures
            result@ == self.spec_text(),
    {
        match self {
            Self::Hua => "Hua".to_owned(),
            Self::Number(x) => x.to_string(),
            Self::Special(x) => x.to_string(),
        }
    }

    /// The same card as a bunker card; the flower has no such form.
    pub open spec fn without_hua(self) -> CardTypeNoHua
        recommends
            !(self is Hua),
    {
        match self {
            CardType::Number(x) => CardTypeNoHua::Number(x),
            CardType::Special(x) => CardTypeNoHua::Special(x),
            CardType::Hua => arbitrary(),
        }
    }

    /// The number under which a card is packed: number cards take 1 to 27 by
    /// suit and rank, dragons 28 to 30, the flower 31.
    pub open spec fn byte_value(self) -> int {
        match self {
            CardType::Number(card) => card.value + 9 * card.suit.ordinal(),
            CardType::Special(card) => 28 + card.ordinal(),
            CardType::Hua => 31,
        }
    }

    /// The same card as a bunker card; the flower has no such form.
    #[must_use]
    pub fn remove_hua(&self) -> (result: CardTypeNoHua)
        requires
            !(*self is Hua),
        ensures
            result == self.without_hua(),
            result.with_hua() == *self,
    {
        match self {
            Self::Number(x) => CardTypeNoHua::Number(*x),
            Self::Special(x) => CardTypeNoHua::Special(*x),
            Self::Hua => unreached(),
        }
    }

    /// Returns a number from (1..=31) for a card of the deck.
    #[must_use]
    pub fn to_byte(&self) -> (result: u8)
        requires
            self.byte_value() <= u8::MAX,
        ensures
            result == self.byte_value(),
            (*self matches CardType::Number(card) ==> card.in_deck()) ==> 1 <= result <= 31,
    {
        match self {
            Self::Number(numbercard) => {
                let suit_index: u8 = match numbercard.suit {
                    NumberCardColor::Red => 0,
                    NumberCardColor::Green => 1,
                    NumberCardColor::Black => 2,
                };
                numbercard.value + 9 * suit_index
            },
            Self::Special(specialcard) => {
                let kind_index: u8 = match specialcard {
                    SpecialCardType::Zhong => 0,
                    SpecialCardType::Bai => 1,
                    SpecialCardType::Fa => 2,
                };
                28 + kind_index
            },
            Self::Hua => 31,
        }
    }
}

impl CardTypeNoHua {
    /// The name of the card.
    pub open spec fn spec_text(self) -> Seq<char> {
        self.with_hua().spec_text()
    }

    /// The name of the card.
    pub fn to_string(&self) -> (result: String)
        ensures
            result@ == self.spec_text(),
    {
        match self {
            Self::Number(x) => x.to_string(),
            Self::Special(x) => x.to_string(),
        }
    }

    /// The same card as a field card.
    pub open spec fn with_hua(self) -> CardType {
        match self {
            CardTypeNoHua::Number(x) => CardType::Number(x),
            CardTypeNoHua::Special(x) => CardType::Special(x),
        }
    }

    /// The same card as a field card.
    #[must_use]
    pub fn add_hua(&self) -> (result: CardType)
        ensures
            result == self.with_hua(),
            !(result is Hua),
            result.without_hua() == *self,
    {
        match self {
            Self::Number(x) => CardType::Number(*x),
            Self::Special(x) => CardType::Special(*x),
        }
    }
}

} // verus!
