pub mod bitboard;
pub mod board;
pub mod moves;
pub mod piece;
pub mod squares;
pub mod move_generator;
pub mod fen;
pub mod attack_tables;
pub mod king_safety;
pub mod consistency;
pub mod game;
pub mod config;

pub use board::Board;
pub use fen::load_fen;
pub use move_generator::generate_legal_moves;
pub use moves::{Move, MoveList};
pub use piece::{Piece, PieceColor, PieceType, get_color, get_type};
