//! Verified core of a small multiplayer game server: the grid world and its
//! players, the text line protocol, the game's work queues, entity ids and
//! connected players, the entities of the game world, and the client control
//! logic.

pub mod queue;
pub mod codecs;
pub mod grid;
pub mod protocol;
pub mod controls;
pub mod session;
pub mod world;
