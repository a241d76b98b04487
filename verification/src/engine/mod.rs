//! The game-independent parts of the server: what a player input is, and
//! what data the game keeps per session.

pub mod input;
pub mod world;
