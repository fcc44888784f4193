//! Turn resolution for a grid puzzle game: actors placed on a board run small
//! programs that move, push, turn and hit, and each turn yields a replayable log.

pub mod actor;
pub mod actor_type;
pub mod actor_types;
pub mod board;
pub mod coord;
pub mod direction;
pub mod game;
pub mod program;
pub mod runner;
pub mod shop;
pub mod smart_text;
mod store;
