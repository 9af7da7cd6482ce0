//! Rules of a chess variant played on an 8x8x8 lattice of cells, and the
//! synchronisation logic that keeps one authoritative board for two players.

pub mod location;
pub mod piece;
pub mod board;
pub mod moves;
pub mod protocol;
pub mod session;
pub mod view;

pub use board::{Board, Move};
pub use location::Location;
pub use piece::{BoardState, Colors, Pieces};
pub use protocol::{FrameError, ServerMessage};
pub use session::ServerState;
pub use view::{BoardView, Click, Selection};
