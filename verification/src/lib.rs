//! The turn-based core of a snake game: a snake that moves and grows on a
//! grid whose edges wrap around, food that a seeded generator places, and the
//! turn that advances the game by one step in a given direction.
//!
//! The state of a game is modelled in [`model`], the invariant that every turn
//! keeps in [`validity`], and what follows from the rules in [`laws`].
pub mod board;
pub mod builder;
pub mod controller;
pub mod data_transfer_objects;
pub mod direction;
pub mod game_state;
pub mod generator;
pub mod grid;
pub mod laws;
pub mod model;
pub mod options;
pub mod redraw;
pub mod seeder;
pub mod state;
pub mod validity;
pub mod value_objects;
pub mod view;

pub use crate::data_transfer_objects::Status;
pub use crate::game_state::{GameIsOver, GameState, InvalidDirection};
pub use crate::options::Options;
