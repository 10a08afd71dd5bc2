//! A move-generation engine for a chess-like board game: given a board and an
//! occupied square, it enumerates the squares the occupant can reach under
//! piece-movement rules alone (pseudo-legal moves, without check safety,
//! castling, en passant or promotion handling).

pub mod board;
pub mod laws;
pub mod moves;

pub use board::Color;
pub use board::EmptySquare;
pub use board::Game;
pub use board::GameState;
pub use board::Piece;
pub use board::PieceType;
