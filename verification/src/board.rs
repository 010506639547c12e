pub mod board_class;
pub mod cards;
pub mod fieldposition;
pub mod hashing;
pub mod positions;
pub mod squasher;

pub use board_class::{Board, Error};
pub use cards::{CardType, CardTypeNoHua, NumberCard, NumberCardColor, SpecialCardType};
pub use fieldposition::FieldPosition;
pub use hashing::BoardEqHash;
pub use positions::{BunkerSlot, GoalTransformError, Position, PositionNoGoal};
pub use squasher::BitSquasher;
