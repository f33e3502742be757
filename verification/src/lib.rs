//! A small fixed-tick simulation framework: an entity-component world
//! driven at a fixed rate on a simulation thread, exchanging events,
//! requests and draw commands with a presentation thread through a
//! synchronized shared-state mailbox.

pub mod audio;
pub mod data;
pub mod game;
pub mod state;
pub mod world;
