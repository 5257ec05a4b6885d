pub mod actions;
pub mod board;
pub mod card;
pub mod selection;
