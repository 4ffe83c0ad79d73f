pub mod achievements;
pub mod holding;
pub mod board;
pub mod editing;
pub mod selection;
