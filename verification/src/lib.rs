//! A pseudo-legal chess move generator on bitboards, verified with Verus.
//!
//! A [`Bitboard`] is a set of squares in one 64-bit word. A [`Board`] holds
//! twelve of them, one for each kind of piece of each color, and the
//! en-passant target. `Board::get_moves` answers where the piece on a square
//! can go by the geometry of its kind and the pieces in its way;
//! `Board::apply_move` plays a move. Whether a move leaves the mover's own
//! king attacked is not considered, and there is no castling and no choice
//! of promotion.
//!
//! The contracts are stated over sets of squares: `geometry` defines the
//! lines and steps of the pieces, `bits` ties words to sets, and `sliding`
//! relates the walks of rooks and bishops to clear paths. `board` holds the
//! position and plays moves, `moves` generates them, `constants` holds the
//! masks and the attack tables, and `text` draws the board.

pub mod bitboard;
pub mod bits;
pub mod board;
pub mod constants;
pub mod geometry;
pub mod moves;
pub mod sliding;
pub mod text;

// Re-export main types
pub use bitboard::Bitboard;
pub use board::Board;
pub use board::Color;
pub use board::InvalidMove;
pub use board::PieceType;
