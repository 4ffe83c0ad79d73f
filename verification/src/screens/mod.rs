pub mod about;
pub mod campaign;
pub mod debug_overlay;
pub mod game;
