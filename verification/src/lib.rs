//! A two-player grid-combat game played by exchanging one-line text commands.
//!
//! The crate holds the game's rules and nothing that touches a socket or a
//! window: the board and fleet model, the command codec, the client's
//! connection state machine and the arbitration of a game session.

pub mod battleship;
pub mod bytes;
pub mod client;
pub mod codec;
pub mod session;
pub mod settings;
pub mod values;
