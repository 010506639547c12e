use vstd::prelude::*;
use crate::board::cards::{CardTypeNoHua, SpecialCardType};
use crate::board::fieldposition::FieldPosition;
use crate::text::{append, decimal, number_text};

verus! {

/// What a bunker slot holds.
#[derive(Debug, PartialEq, Eq, Ord, PartialOrd, Hash, Clone, Copy, Structural)]
pub enum BunkerSlot {
    Empty,
    Blocked(Option<SpecialCardType>),
    Stash(CardTypeNoHua),
}

/// A place on the board.
#[derive(Debug, Clone, Copy, Eq, PartialEq, Hash, Structural)]
pub enum Position {
    Field(FieldPosition),
    Bunker { slot_index: u8 },
    Goal { slot_index: u8 },
}

/// A place on the board that a card can be taken from.
#[derive(Debug, Clone, Copy, Eq, PartialEq, Hash, Structural)]
pub enum PositionNoGoal {
    Field(FieldPosition),
    Bunker { slot_index: u8 },
}

/// A goal slot is no place to take a card from.
#[derive(Debug, Clone, Copy)]
pub struct GoalTransformError;

/// Whether a place names a column or a bunker slot that the board has.
pub open spec fn on_board(position: PositionNoGoal) -> bool {
    match position {
        PositionNoGoal::Field(cell) => cell.spec_column() < 8,
        PositionNoGoal::Bunker { slot_index } => slot_index < 3,
    }
}

impl PositionNoGoal {
    /// The place, as in `Field (slot #3 index #0)` or `Bunker #1`.
    pub open spec fn spec_text(self) -> Seq<char> {
        self.widen().spec_text()
    }

    /// The place, as in `Field (slot #3 index #0)` or `Bunker #1`.
    pub fn to_string(&self) -> (result: String)
        ensures
            result@ == self.spec_text(),
    {
        Position::from_source(*self).to_string()
    }

    /// The same place among all places of the board.
    pub open spec fn widen(self) -> Position {
        match self {
            PositionNoGoal::Field(x) => Position::Field(x),
            PositionNoGoal::Bunker { slot_index } => Position::Bunker { slot_index },
        }
    }

    /// Whether `other` is this place.
    pub fn eq_position(&self, other: &Position) -> (result: bool)
        ensures
            result == (self.widen() == *other),
    {
        match Self::try_from_position(*other) {
            Ok(other) => *self == other,
            Err(_) => false,
        }
    }

    /// The place as a source, unless it is a goal slot.
    pub fn try_from_position(input: Position) -> (result: Result<Self, GoalTransformError>)
        ensures
            input is Goal <==> result is Err,
            result matches Ok(p) ==> p.widen() == input,
    {
        match input {
            Position::Field(field_position) => Ok(Self::Field(field_position)),
            Position::Bunker { slot_index } => Ok(Self::Bunker { slot_index }),
            Position::Goal { .. } => Err(GoalTransformError),
        }
    }
}

impl Position {
    /// The place, as in `Field (slot #3 index #0)`, `Bunker #1` or `Goal #2`.
    pub open spec fn spec_text(self) -> Seq<char> {
        match self {
            Position::Field(x) => "Field ("@ + x.spec_text() + ")"@,
            Position::Bunker { slot_index } => "Bunker #"@ + decimal(slot_index as nat),
            Position::Goal { slot_index } => "Goal #"@ + decimal(slot_index as nat),
        }
    }

    /// The place, as in `Field (slot #3 index #0)`, `Bunker #1` or `Goal #2`.
    pub fn to_string(&self) -> (result: String)
        ensures
            result@ == self.spec_text(),
    {
        match self {
            Self::Field(x) => {
                let mut result = "Field (".to_owned();
                append(&mut result, x.to_string().as_str());
                append(&mut result, ")");
                result
            },
            Self::Bunker { slot_index } => {
                let mut result = "Bunker #".to_owned();
                append(&mut result, number_text(*slot_index).as_str());
                result
            },
            Self::Goal { slot_index } => {
                let mut result = "Goal #".to_owned();
                append(&mut result, number_text(*slot_index).as_str());
                result
            },
        }
    }

    /// Whether `other` is this place.
    pub fn eq_source(&self, other: &PositionNoGoal) -> (result: bool)
        ensures
            result == (other.widen() == *self),
    {
        other.eq_position(self)
    }

    /// The same place among all places of the board.
    pub fn from_source(input: PositionNoGoal) -> (result: Self)
        ensures
            result == input.widen(),
    {
        match input {
            PositionNoGoal::Field(x) => Self::Field(x),
            PositionNoGoal::Bunker { slot_index } => Self::Bunker { slot_index },
        }
    }
}

impl From<PositionNoGoal> for Position {
    fn from(input: PositionNoGoal) -> (result: Self) {
        match input {
            PositionNoGoal::Field(x) => Self::Field(x),
            PositionNoGoal::Bunker { slot_index } => Self::Bunker { slot_index },
        }
    }
}

impl vstd::std_specs::convert::FromSpecImpl<PositionNoGoal> for Position {
    open spec fn obeys_from_spec() -> bool {
        true
    }

    open spec fn from_spec(input: PositionNoGoal) -> Self {
        input.widen()
    }
}

} // verus!
