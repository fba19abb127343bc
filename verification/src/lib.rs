//! Verified core of a real-time arena brawler server: the round lifecycle,
//! the text protocols spoken by the control panel and the players' phones,
//! and the discrete decisions taken on every simulation step.

pub mod clock;
pub mod collisions;
pub mod command;
pub mod game;
pub mod input;
pub mod player;
pub mod text;
pub mod world;
