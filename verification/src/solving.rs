mod action_board;
mod adapter;
pub mod benchmark;
mod board_state_iterator;
pub mod solve;
mod stack_frame;

pub use solve::{solve, Error};
