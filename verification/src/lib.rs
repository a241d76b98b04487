//! The verified core of a small multiplayer game server: sessions, player
//! inputs, the sprite world and how it advances, and the text messages that
//! the server sends to each client.

pub mod connections;
pub mod engine;
pub mod game;
pub mod input;
pub mod scene;
pub mod sessionid;
pub mod sprite;
pub mod stash_table;
pub mod text;
pub mod world;
