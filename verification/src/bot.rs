//! What the chat front end needs decided: who may manage the store, how
//! formatted text is put together, and what its buttons stand for.

pub mod state;
pub mod types;
pub mod ui;
pub mod utils;
