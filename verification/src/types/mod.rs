//! Board coordinates, pieces, hands, moves, bitboards and game outcomes.
pub mod color;

pub use color::Color;
pub mod file;

pub use file::File;
pub mod rank;

pub use rank::Rank;
pub mod square;

pub use square::{Square, SquareTable, SQ_D, SQ_L, SQ_LD, SQ_LU, SQ_NONE, SQ_R, SQ_RD, SQ_RU, SQ_U, SQ_ZERO};
pub mod piece;

pub use piece::{Piece, PieceType};
pub mod hand;

pub use hand::{Hand, HandPiece, HAND_BIT_MASK, HAND_BORROW_MASK};
pub mod eval;
mod eval_order;

pub use eval::Eval;
pub mod entering_king_rule;
pub mod game_result;
pub mod repetition_state;

pub use entering_king_rule::EnteringKingRule;
pub use game_result::GameResult;
pub use repetition_state::RepetitionState;
pub mod moves;

pub use moves::{Move, Move32, MoveType};
pub mod bitboard;

pub use bitboard::Bitboard;
pub mod ki2;

pub use ki2::{Ki2Notation, Ki2ResolveError, ParseKi2NotationError};
