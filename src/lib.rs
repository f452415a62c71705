//! Rule engine for Mau Mau, a shedding card game played with a 32-card deck.

pub mod card;
pub mod deck;
pub mod game;
pub mod lobby;
pub mod player;
pub mod state;
pub mod store;
pub mod ui;
