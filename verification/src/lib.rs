pub mod action_optimization;
pub mod actions;
pub mod board;
pub mod solving;
pub mod text;
