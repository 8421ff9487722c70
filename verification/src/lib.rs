//! A two-player four-in-a-row game: the board engine, the turn-keeping
//! session around one board, and the lobby that pairs waiting participants
//! into new sessions.

pub mod connect_four;
pub mod contract;
pub mod session;

pub use contract::Contract;
pub use session::{Game, GameError, Identifier};
