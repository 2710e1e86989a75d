//! Core logic for a small chat bot: a persistent configuration store for two
//! named channel identifiers, the JSON codec for its on-disk form, and a
//! roulette mini-game.

pub mod codec;
pub mod config;
pub mod events;
pub mod roulette;
pub mod text;
