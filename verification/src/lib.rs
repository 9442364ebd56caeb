//! Rule engine of a grid-based mine-clearing puzzle: the board, mine placement,
//! adjacency hints, cascading reveal, flag bookkeeping and win/loss detection.

pub mod cascade;
pub mod game_loop;
pub mod grid;
pub mod input_handler;
pub mod placement;
pub mod random;
pub mod rules;
pub mod state;
pub mod text;
pub mod tile;

pub use rules::{Action, GameError};
pub use state::{Difficulty, GameMode, GameState, GameView, Phase};
pub use tile::Tile;
