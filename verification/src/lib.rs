pub mod direction;
pub mod game;
pub mod integrations;
pub mod level;
pub mod map;
pub mod misc;
pub mod screens;
pub mod simulation;
pub mod tile;
