pub mod tile;
pub mod tick;
pub mod tick_laws;
pub mod cycles;
pub mod acceleration;
pub mod level_state;
pub mod state;
pub mod runtime;
