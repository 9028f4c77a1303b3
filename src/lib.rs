pub mod board;
pub mod game;
pub mod grid;
pub mod laws;
mod rng;
pub mod snake;
pub mod string_rep;

pub use board::GameMap;
pub use game::{Game, Rolls};
pub use grid::{Direction, Element, ElementKind, Position};
pub use snake::Snake;
