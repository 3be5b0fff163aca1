//! Tic-tac-toe on a 3x3 grid: the game state, its rules, and an exhaustive
//! minimax search that never loses.

pub mod board;
pub mod laws;
pub mod player;
pub mod search;
pub mod state;

pub use board::{get_char, get_line_winner, Selection};
pub use player::{GameResult, Player};
pub use search::minimax;
pub use state::GameState;
