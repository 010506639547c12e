pub mod base;
pub mod move_action;
pub mod possibilities;
pub mod round_trip;

pub use base::{All, Bunkerize, DragonKill, Goal, HuaKill};
pub use move_action::Move;
