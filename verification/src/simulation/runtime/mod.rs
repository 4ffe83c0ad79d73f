pub mod testing;
pub mod asynchronous;
