//! The position: twelve bitboards and the en-passant target, the queries on
//! them, the placing of pieces and the playing of moves.

use vstd::prelude::*;
use crate::bitboard::Bitboard;
use crate::bits::{has_bit, squares_of};
use crate::constants::{
    BLACK_BISHOPS_INIT,
    BLACK_KING_INIT,
    BLACK_KNIGHTS_INIT,
    BLACK_PAWNS_INIT,
    BLACK_QUEENS_INIT,
    BLACK_ROOKS_INIT,
    WHITE_BISHOPS_INIT,
    WHITE_KING_INIT,
    WHITE_KNIGHTS_INIT,
    WHITE_PAWNS_INIT,
    WHITE_QUEENS_INIT,
    WHITE_ROOKS_INIT,
};
use crate::geometry::{distance, file_of, on_board, rank_of};

verus! {

/// The two sides.
#[derive(Debug, Clone, Copy, PartialEq, Eq, Structural)]
pub enum Color {
    White,
    Black,
}

impl Color {
    /// The other color.
    pub open spec fn other(&self) -> Color {
        match self {
            Color::White => Color::Black,
            Color::Black => Color::White,
        }
    }

    /// The other color.
    #[verifier::when_used_as_spec(other)]
    pub fn opposite(&self) -> (r: Color)
        ensures
            r == self.other(),
    {
        match self {
            Color::White => Color::Black,
            Color::Black => Color::White,
        }
    }
}

/// The six kinds of piece.
#[derive(Debug, Clone, Copy, PartialEq, Eq, Structural)]
pub enum PieceType {
    Pawn,
    Knight,
    Bishop,
    Rook,
    Queen,
    King,
}

/// A position: for each kind of piece of each color the squares that hold
/// one, and the en-passant target.
///
/// The fields are private. Contracts speak of a board through `pieces` and
/// `en_passant`, and through what is defined on top of them: `squares`,
/// `piece_at`, `wf`.
#[derive(Debug, PartialEq, Eq)]
pub struct Board {
    white_pawns: Bitboard,
    white_knights: Bitboard,
    white_bishops: Bitboard,
    white_rooks: Bitboard,
    white_queens: Bitboard,
    white_king: Bitboard,
    black_pawns: Bitboard,
    black_knights: Bitboard,
    black_bishops: Bitboard,
    black_rooks: Bitboard,
    black_queens: Bitboard,
    black_king: Bitboard,
    en_passant_square: Option<u8>,  // Square behind a pawn that just moved two squares
}

impl Clone for Board {
    /// An independent copy of the board.
    fn clone(&self) -> (r: Self)
        ensures
            r == *self,
    {
        Board {
            white_pawns: self.white_pawns,
            white_knights: self.white_knights,
            white_bishops: self.white_bishops,
            white_rooks: self.white_rooks,
            white_queens: self.white_queens,
            white_king: self.white_king,
            black_pawns: self.black_pawns,
            black_knights: self.black_knights,
            black_bishops: self.black_bishops,
            black_rooks: self.black_rooks,
            black_queens: self.black_queens,
            black_king: self.black_king,
            en_passant_square: self.en_passant_square,
        }
    }
}

/// The error of `apply_move`: no piece stands on the square to move from.
/// It carries the request that was refused.
#[derive(Debug, Clone, Copy, PartialEq, Eq, Structural)]
pub struct InvalidMove {
    pub from: u8,
    pub to: u8,
}

/// The direction in which the pawns of a color advance: the change of rank
/// with one step.
pub open spec fn forward(color: Color) -> int {
    match color {
        Color::White => 1,
        Color::Black => -1,
    }
}

/// The rank on which the pawns of a color start, counted from 0.
pub open spec fn home_rank(color: Color) -> int {
    match color {
        Color::White => 1,
        Color::Black => 6,
    }
}

/// The square of the pawn that an en-passant capture by `color` on `to`
/// removes: on the file of `to`, one rank behind it as `color` sees it.
pub open spec fn passed_pawn(color: Color, to: int) -> int {
    to - 8 * forward(color)
}

proof fn initial_at(s: u64)
    by (bit_vector)
    requires
        s < 64,
    ensures
        ((WHITE_PAWNS_INIT >> s) & 1 == 1) == (8 <= s < 16),
        ((WHITE_KNIGHTS_INIT >> s) & 1 == 1) == (s == 1 || s == 6),
        ((WHITE_BISHOPS_INIT >> s) & 1 == 1) == (s == 2 || s == 5),
        ((WHITE_ROOKS_INIT >> s) & 1 == 1) == (s == 0 || s == 7),
        ((WHITE_QUEENS_INIT >> s) & 1 == 1) == (s == 3),
        ((WHITE_KING_INIT >> s) & 1 == 1) == (s == 4),
        ((BLACK_PAWNS_INIT >> s) & 1 == 1) == (48 <= s < 56),
        ((BLACK_KNIGHTS_INIT >> s) & 1 == 1) == (s == 57 || s == 62),
        ((BLACK_BISHOPS_INIT >> s) & 1 == 1) == (s == 58 || s == 61),
        ((BLACK_ROOKS_INIT >> s) & 1 == 1) == (s == 56 || s == 63),
        ((BLACK_QUEENS_INIT >> s) & 1 == 1) == (s == 59),
        ((BLACK_KING_INIT >> s) & 1 == 1) == (s == 60),
{
}

/// The bitboard that the standard starting position gives to one kind of
/// piece of one color.
pub open spec fn initial_bits(piece_type: PieceType, color: Color) -> u64 {
    match (color, piece_type) {
        (Color::White, PieceType::Pawn) => WHITE_PAWNS_INIT,
        (Color::White, PieceType::Knight) => WHITE_KNIGHTS_INIT,
        (Color::White, PieceType::Bishop) => WHITE_BISHOPS_INIT,
        (Color::White, PieceType::Rook) => WHITE_ROOKS_INIT,
        (Color::White, PieceType::Queen) => WHITE_QUEENS_INIT,
        (Color::White, PieceType::King) => WHITE_KING_INIT,
        (Color::Black, PieceType::Pawn) => BLACK_PAWNS_INIT,
        (Color::Black, PieceType::Knight) => BLACK_KNIGHTS_INIT,
        (Color::Black, PieceType::Bishop) => BLACK_BISHOPS_INIT,
        (Color::Black, PieceType::Rook) => BLACK_ROOKS_INIT,
        (Color::Black, PieceType::Queen) => BLACK_QUEENS_INIT,
        (Color::Black, PieceType::King) => BLACK_KING_INIT,
    }
}

/// The squares on which the pieces of one kind and color start: the pawns
/// on the second rank of their side, the pieces behind them with the rooks
/// in the corners, the knights beside them, then the bishops, and the queen
/// on the d-file beside the king.
pub open spec fn initial_squares(piece_type: PieceType, color: Color) -> Set<int> {
    match (color, piece_type) {
        (Color::White, PieceType::Pawn) => Set::new(|sq: int| 8 <= sq < 16),
        (Color::White, PieceType::Knight) => set![1, 6],
        (Color::White, PieceType::Bishop) => set![2, 5],
        (Color::White, PieceType::Rook) => set![0, 7],
        (Color::White, PieceType::Queen) => set![3],
        (Color::White, PieceType::King) => set![4],
        (Color::Black, PieceType::Pawn) => Set::new(|sq: int| 48 <= sq < 56),
        (Color::Black, PieceType::Knight) => set![57, 62],
        (Color::Black, PieceType::Bishop) => set![58, 61],
        (Color::Black, PieceType::Rook) => set![56, 63],
        (Color::Black, PieceType::Queen) => set![59],
        (Color::Black, PieceType::King) => set![60],
    }
}

/// The masks of the starting position hold the squares on which the pieces
/// start.
pub proof fn lemma_initial_squares(piece_type: PieceType, color: Color)
    ensures
        squares_of(initial_bits(piece_type, color)) == initial_squares(piece_type, color),
{
    assert forall|sq: int|
        has_bit(initial_bits(piece_type, color), sq) == initial_squares(piece_type, color).contains(
            sq,
        ) by {
        if on_board(sq) {
            initial_at(sq as u64);
        }
    }
    assert(squares_of(initial_bits(piece_type, color)) =~= initial_squares(piece_type, color));
}

impl Board {
    /// The bitboard of one kind of piece of one color.
    pub closed spec fn pieces(&self, piece_type: PieceType, color: Color) -> Bitboard {
        match (color, piece_type) {
            (Color::White, PieceType::Pawn) => self.white_pawns,
            (Color::White, PieceType::Knight) => self.white_knights,
            (Color::White, PieceType::Bishop) => self.white_bishops,
            (Color::White, PieceType::Rook) => self.white_rooks,
            (Color::White, PieceType::Queen) => self.white_queens,
            (Color::White, PieceType::King) => self.white_king,
            (Color::Black, PieceType::Pawn) => self.black_pawns,
            (Color::Black, PieceType::Knight) => self.black_knights,
            (Color::Black, PieceType::Bishop) => self.black_bishops,
            (Color::Black, PieceType::Rook) => self.black_rooks,
            (Color::Black, PieceType::Queen) => self.black_queens,
            (Color::Black, PieceType::King) => self.black_king,
        }
    }

    /// The en-passant target: the square that the pawn of the last move
    /// passed over, if that move was a pawn's advance by two ranks.
    pub closed spec fn en_passant(&self) -> Option<u8> {
        self.en_passant_square
    }

    /// The squares that hold a piece of the given kind and color.
    pub open spec fn squares(&self, piece_type: PieceType, color: Color) -> Set<int> {
        self.pieces(piece_type, color)@
    }

    /// The squares that hold a piece of the given color.
    pub open spec fn color_squares(&self, color: Color) -> Set<int> {
        self.squares(PieceType::Pawn, color).union(self.squares(PieceType::Knight, color)).union(
            self.squares(PieceType::Bishop, color),
        ).union(self.squares(PieceType::Rook, color)).union(
            self.squares(PieceType::Queen, color),
        ).union(self.squares(PieceType::King, color))
    }

    /// The squares that hold a piece.
    pub open spec fn occupied(&self) -> Set<int> {
        self.color_squares(Color::White).union(self.color_squares(Color::Black))
    }

    /// The kind of piece of `color` that `piece_at` reports for a square
    /// which holds that color: the first in the order pawn, knight, bishop,
    /// rook, queen, king whose bitboard holds the square.
    pub open spec fn kind_at(&self, color: Color, sq: int) -> PieceType {
        if self.squares(PieceType::Pawn, color).contains(sq) {
            PieceType::Pawn
        } else if self.squares(PieceType::Knight, color).contains(sq) {
            PieceType::Knight
        } else if self.squares(PieceType::Bishop, color).contains(sq) {
            PieceType::Bishop
        } else if self.squares(PieceType::Rook, color).contains(sq) {
            PieceType::Rook
        } else if self.squares(PieceType::Queen, color).contains(sq) {
            PieceType::Queen
        } else {
            PieceType::King
        }
    }

    /// The piece on a square, if any. Where both colors hold the square,
    /// White is reported.
    pub open spec fn piece_at(&self, sq: int) -> Option<(PieceType, Color)> {
        if self.color_squares(Color::White).contains(sq) {
            Some((self.kind_at(Color::White, sq), Color::White))
        } else if self.color_squares(Color::Black).contains(sq) {
            Some((self.kind_at(Color::Black, sq), Color::Black))
        } else {
            None
        }
    }

    /// The position is well formed: no square holds two pieces. So the six
    /// bitboards of each color are pairwise disjoint, and no square holds
    /// both colors.
    pub open spec fn wf(&self) -> bool {
        forall|sq: int, first: PieceType, first_color: Color, second: PieceType, second_color: Color|
            #[trigger] self.squares(first, first_color).contains(sq) && #[trigger] self.squares(
                second,
                second_color,
            ).contains(sq) ==> first == second && first_color == second_color
    }

    /// The en-passant target, when there is one, lies behind the pawn that
    /// passed it: on the third rank with a white pawn on the fourth, or on
    /// the sixth rank with a black pawn on the fifth.
    pub open spec fn target_behind_pawn(&self) -> bool {
        self.en_passant() matches Some(target) ==> {
            ||| (rank_of(target as int) == 2 && self.squares(PieceType::Pawn, Color::White).contains(
                target + 8,
            ))
            ||| (rank_of(target as int) == 5 && self.squares(PieceType::Pawn, Color::Black).contains(
                target - 8,
            ))
        }
    }

    /// Two boards with the same twelve bitboards and the same en-passant
    /// target are the same board.
    pub proof fn lemma_board_determined(self, other: Board)
        requires
            forall|piece_type: PieceType, color: Color|
                self.pieces(piece_type, color) == other.pieces(piece_type, color),
            self.en_passant() == other.en_passant(),
        ensures
            self == other,
    {
        assert(self.pieces(PieceType::Pawn, Color::White) == other.pieces(
            PieceType::Pawn,
            Color::White,
        ));
        assert(self.pieces(PieceType::Knight, Color::White) == other.pieces(
            PieceType::Knight,
            Color::White,
        ));
        assert(self.pieces(PieceType::Bishop, Color::White) == other.pieces(
            PieceType::Bishop,
            Color::White,
        ));
        assert(self.pieces(PieceType::Rook, Color::White) == other.pieces(
            PieceType::Rook,
            Color::White,
        ));
        assert(self.pieces(PieceType::Queen, Color::White) == other.pieces(
            PieceType::Queen,
            Color::White,
        ));
        assert(self.pieces(PieceType::King, Color::White) == other.pieces(
            PieceType::King,
            Color::White,
        ));
        assert(self.pieces(PieceType::Pawn, Color::Black) == other.pieces(
            PieceType::Pawn,
            Color::Black,
        ));
        assert(self.pieces(PieceType::Knight, Color::Black) == other.pieces(
            PieceType::Knight,
            Color::Black,
        ));
        assert(self.pieces(PieceType::Bishop, Color::Black) == other.pieces(
            PieceType::Bishop,
            Color::Black,
        ));
        assert(self.pieces(PieceType::Rook, Color::Black) == other.pieces(
            PieceType::Rook,
            Color::Black,
        ));
        assert(self.pieces(PieceType::Queen, Color::Black) == other.pieces(
            PieceType::Queen,
            Color::Black,
        ));
        assert(self.pieces(PieceType::King, Color::Black) == other.pieces(
            PieceType::King,
            Color::Black,
        ));
    }

    /// On a well-formed board `piece_at` names the one piece whose bitboard
    /// holds the square.
    pub proof fn lemma_piece_at(self, sq: int, piece_type: PieceType, color: Color)
        requires
            self.wf(),
        ensures
            self.piece_at(sq) == Some((piece_type, color)) <==> self.squares(
                piece_type,
                color,
            ).contains(sq),
    {
        if self.squares(piece_type, color).contains(sq) {
            assert(self.color_squares(color).contains(sq));
        }
        if self.piece_at(sq) == Some((piece_type, color)) {
            assert(self.color_squares(color).contains(sq));
            assert(self.squares(self.kind_at(color, sq), color).contains(sq));
        }
    }

    /// A square holds a piece exactly if `piece_at` names one, and the piece
    /// named stands there.
    pub proof fn lemma_piece_at_occupied(self, sq: int)
        ensures
            self.piece_at(sq) is Some <==> self.occupied().contains(sq),
            self.piece_at(sq) matches Some((piece_type, color)) ==> self.squares(
                piece_type,
                color,
            ).contains(sq),
    {
    }

    /// A well-formed board in the words of its bitboards: the six bitboards
    /// of each color are pairwise disjoint, and the squares of White are
    /// disjoint from those of Black.
    pub proof fn lemma_wf_disjoint(self)
        ensures
            self.wf() <==> {
                &&& forall|color: Color, first: PieceType, second: PieceType|
                    first != second ==> #[trigger] self.squares(first, color).disjoint(
                        #[trigger] self.squares(second, color),
                    )
                &&& self.color_squares(Color::White).disjoint(self.color_squares(Color::Black))
            },
    {
        let apart = {
            &&& forall|color: Color, first: PieceType, second: PieceType|
                first != second ==> #[trigger] self.squares(first, color).disjoint(
                    #[trigger] self.squares(second, color),
                )
            &&& self.color_squares(Color::White).disjoint(self.color_squares(Color::Black))
        };
        if self.wf() {
            assert forall|color: Color, first: PieceType, second: PieceType|
                first != second implies #[trigger] self.squares(first, color).disjoint(
                #[trigger] self.squares(second, color),
            ) by {
                assert forall|sq: int|
                    !(self.squares(first, color).contains(sq) && self.squares(
                        second,
                        color,
                    ).contains(sq)) by {}
            }
            assert forall|sq: int|
                !(self.color_squares(Color::White).contains(sq) && self.color_squares(
                    Color::Black,
                ).contains(sq)) by {
                if self.color_squares(Color::White).contains(sq) && self.color_squares(
                    Color::Black,
                ).contains(sq) {
                    self.lemma_piece_at_occupied(sq);
                    assert(self.squares(self.kind_at(Color::White, sq), Color::White).contains(
                        sq,
                    ));
                    assert(self.squares(self.kind_at(Color::Black, sq), Color::Black).contains(
                        sq,
                    ));
                }
            }
        }
        if apart {
            assert forall|
                sq: int,
                first: PieceType,
                first_color: Color,
                second: PieceType,
                second_color: Color,
            | #[trigger]
                self.squares(first, first_color).contains(sq) && #[trigger] self.squares(
                    second,
                    second_color,
                ).contains(sq) implies first == second && first_color == second_color by {
                assert(self.color_squares(first_color).contains(sq));
                assert(self.color_squares(second_color).contains(sq));
                if first_color == second_color && first != second {
                    assert(self.squares(first, first_color).disjoint(
                        self.squares(second, first_color),
                    ));
                }
            }
        }
    }

    /// Creates a new empty board
    pub fn empty() -> (r: Self)
        ensures
            forall|piece_type: PieceType, color: Color|
                #[trigger] r.squares(piece_type, color) == Set::<int>::empty(),
            r.en_passant() is None,
            r.wf(),
            r.target_behind_pawn(),
    {
        Board {
            white_pawns: Bitboard::empty(),
            white_knights: Bitboard::empty(),
            white_bishops: Bitboard::empty(),
            white_rooks: Bitboard::empty(),
            white_queens: Bitboard::empty(),
            white_king: Bitboard::empty(),
            black_pawns: Bitboard::empty(),
            black_knights: Bitboard::empty(),
            black_bishops: Bitboard::empty(),
            black_rooks: Bitboard::empty(),
            black_queens: Bitboard::empty(),
            black_king: Bitboard::empty(),
            en_passant_square: None,
        }
    }

    /// Creates a new board with pieces in their initial positions
    pub fn initial() -> (r: Self)
        ensures
            forall|piece_type: PieceType, color: Color|
                #[trigger] r.pieces(piece_type, color).bits() == initial_bits(piece_type, color),
            forall|piece_type: PieceType, color: Color|
                #[trigger] r.squares(piece_type, color) == initial_squares(piece_type, color),
            r.en_passant() is None,
            r.wf(),
            r.target_behind_pawn(),
    {
        let board = Board {
            white_pawns: Bitboard::from_u64(WHITE_PAWNS_INIT),
            white_knights: Bitboard::from_u64(WHITE_KNIGHTS_INIT),
            white_bishops: Bitboard::from_u64(WHITE_BISHOPS_INIT),
            white_rooks: Bitboard::from_u64(WHITE_ROOKS_INIT),
            white_queens: Bitboard::from_u64(WHITE_QUEENS_INIT),
            white_king: Bitboard::from_u64(WHITE_KING_INIT),
            black_pawns: Bitboard::from_u64(BLACK_PAWNS_INIT),
            black_knights: Bitboard::from_u64(BLACK_KNIGHTS_INIT),
            black_bishops: Bitboard::from_u64(BLACK_BISHOPS_INIT),
            black_rooks: Bitboard::from_u64(BLACK_ROOKS_INIT),
            black_queens: Bitboard::from_u64(BLACK_QUEENS_INIT),
            black_king: Bitboard::from_u64(BLACK_KING_INIT),
            en_passant_square: None,
        };
        proof {
            assert forall|
                sq: int,
                first: PieceType,
                first_color: Color,
                second: PieceType,
                second_color: Color,
            | #[trigger]
                board.squares(first, first_color).contains(sq) && #[trigger] board.squares(
                    second,
                    second_color,
                ).contains(sq) implies first == second && first_color == second_color by {
                lemma_initial_squares(first, first_color);
                lemma_initial_squares(second, second_color);
            }
            assert forall|piece_type: PieceType, color: Color|
                #[trigger] board.squares(piece_type, color) == initial_squares(
                    piece_type,
                    color,
                ) by {
                lemma_initial_squares(piece_type, color);
            }
        }
        board
    }

    /// Gets all pieces of a given color
    pub fn get_color_pieces(&self, color: Color) -> (r: Bitboard)
        ensures
            r@ == self.color_squares(color),
    {
        match color {
            Color::White => {
                self.white_pawns | self.white_knights | self.white_bishops | self.white_rooks
                    | self.white_queens | self.white_king
            },
            Color::Black => {
                self.black_pawns | self.black_knights | self.black_bishops | self.black_rooks
                    | self.black_queens | self.black_king
            },
        }
    }

    /// Gets all pieces of a given type and color
    pub fn get_pieces(&self, piece_type: PieceType, color: Color) -> (r: Bitboard)
        ensures
            r == self.pieces(piece_type, color),
    {
        match (color, piece_type) {
            (Color::White, PieceType::Pawn) => self.white_pawns,
            (Color::White, PieceType::Knight) => self.white_knights,
            (Color::White, PieceType::Bishop) => self.white_bishops,
            (Color::White, PieceType::Rook) => self.white_rooks,
            (Color::White, PieceType::Queen) => self.white_queens,
            (Color::White, PieceType::King) => self.white_king,
            (Color::Black, PieceType::Pawn) => self.black_pawns,
            (Color::Black, PieceType::Knight) => self.black_knights,
            (Color::Black, PieceType::Bishop) => self.black_bishops,
            (Color::Black, PieceType::Rook) => self.black_rooks,
            (Color::Black, PieceType::Queen) => self.black_queens,
            (Color::Black, PieceType::King) => self.black_king,
        }
    }

    /// Gets all pieces (both colors)
    pub fn get_all_pieces(&self) -> (r: Bitboard)
        ensures
            r@ == self.occupied(),
    {
        self.get_color_pieces(Color::White) | self.get_color_pieces(Color::Black)
    }

    /// Gets the piece type at a given square, if any
    pub fn get_piece_at(&self, square: u8) -> (r: Option<(PieceType, Color)>)
        requires
            square < 64,
        ensures
            r == self.piece_at(square as int),
    {
        let white_pieces = self.get_color_pieces(Color::White);
        let black_pieces = self.get_color_pieces(Color::Black);

        if !white_pieces.test_bit(square) && !black_pieces.test_bit(square) {
            return None;
        }
        let color = if white_pieces.test_bit(square) {
            Color::White
        } else {
            Color::Black
        };

        let piece_type = if self.get_pieces(PieceType::Pawn, color).test_bit(square) {
            PieceType::Pawn
        } else if self.get_pieces(PieceType::Knight, color).test_bit(square) {
            PieceType::Knight
        } else if self.get_pieces(PieceType::Bishop, color).test_bit(square) {
            PieceType::Bishop
        } else if self.get_pieces(PieceType::Rook, color).test_bit(square) {
            PieceType::Rook
        } else if self.get_pieces(PieceType::Queen, color).test_bit(square) {
            PieceType::Queen
        } else {
            PieceType::King
        };

        Some((piece_type, color))
    }

    /// The en-passant target, if the last move applied was a pawn's advance
    /// by two ranks.
    pub fn en_passant_target(&self) -> (r: Option<u8>)
        ensures
            r == self.en_passant(),
    {
        self.en_passant_square
    }

    /// Places a piece on the board: sets the bit of `square` on the bitboard
    /// of the piece. Nothing else changes, so this builds positions and does
    /// not play moves.
    pub fn place_piece(&mut self, piece_type: PieceType, color: Color, square: u8)
        requires
            square < 64,
        ensures
            final(self).squares(piece_type, color) == old(self).squares(piece_type, color).insert(
                square as int,
            ),
            forall|other: PieceType, other_color: Color|
                other != piece_type || other_color != color ==> #[trigger] final(self).pieces(
                    other,
                    other_color,
                ) == old(self).pieces(other, other_color),
            final(self).en_passant() == old(self).en_passant(),
            old(self).wf() ==> (final(self).wf() <==> (old(self).piece_at(square as int) is None
                || old(self).piece_at(square as int) == Some((piece_type, color)))),
            old(self).target_behind_pawn() ==> final(self).target_behind_pawn(),
    {
        let ghost before = *self;
        let bitboard = match (color, piece_type) {
            (Color::White, PieceType::Pawn) => &mut self.white_pawns,
            (Color::White, PieceType::Knight) => &mut self.white_knights,
            (Color::White, PieceType::Bishop) => &mut self.white_bishops,
            (Color::White, PieceType::Rook) => &mut self.white_rooks,
            (Color::White, PieceType::Queen) => &mut self.white_queens,
            (Color::White, PieceType::King) => &mut self.white_king,
            (Color::Black, PieceType::Pawn) => &mut self.black_pawns,
            (Color::Black, PieceType::Knight) => &mut self.black_knights,
            (Color::Black, PieceType::Bishop) => &mut self.black_bishops,
            (Color::Black, PieceType::Rook) => &mut self.black_rooks,
            (Color::Black, PieceType::Queen) => &mut self.black_queens,
            (Color::Black, PieceType::King) => &mut self.black_king,
        };

        bitboard.set_bit(square);
        proof {
            if before.wf() {
                before.lemma_after_placing(*self, piece_type, color, square as int);
            }
        }
    }

    /// A board `after` holds the pieces of this board and one more on `sq`.
    /// It is well formed exactly if `sq` held no other piece.
    proof fn lemma_after_placing(self, after: Board, piece_type: PieceType, color: Color, sq: int)
        requires
            self.wf(),
            after.squares(piece_type, color) == self.squares(piece_type, color).insert(sq),
            forall|other: PieceType, other_color: Color|
                other != piece_type || other_color != color ==> #[trigger] after.pieces(
                    other,
                    other_color,
                ) == self.pieces(other, other_color),
        ensures
            after.wf() <==> (self.piece_at(sq) is None || self.piece_at(sq) == Some(
                (piece_type, color),
            )),
    {
        match self.piece_at(sq) {
            Some((kind, side)) => {
                self.lemma_piece_at(sq, kind, side);
                if kind != piece_type || side != color {
                    assert(after.pieces(kind, side) == self.pieces(kind, side));
                    assert(after.squares(kind, side).contains(sq));
                    assert(after.squares(piece_type, color).contains(sq));
                }
            },
            None => {},
        }
        if self.piece_at(sq) is None || self.piece_at(sq) == Some((piece_type, color)) {
            assert forall|
                at: int,
                first: PieceType,
                first_color: Color,
                second: PieceType,
                second_color: Color,
            | #[trigger]
                after.squares(first, first_color).contains(at) && #[trigger] after.squares(
                    second,
                    second_color,
                ).contains(at) implies first == second && first_color == second_color by {
                self.lemma_piece_at(sq, first, first_color);
                self.lemma_piece_at(sq, second, second_color);
                if first != piece_type || first_color != color {
                    assert(after.pieces(first, first_color) == self.pieces(first, first_color));
                }
                if second != piece_type || second_color != color {
                    assert(after.pieces(second, second_color) == self.pieces(
                        second,
                        second_color,
                    ));
                }
            }
        }
    }

    /// The move from `from` to `to` is an en-passant capture: a pawn moves
    /// to a diagonally adjacent square which is the en-passant target.
    pub open spec fn captures_en_passant(&self, from: int, to: int) -> bool {
        &&& self.piece_at(from) matches Some((PieceType::Pawn, _))
        &&& self.en_passant() matches Some(target)
        &&& target == to
        &&& distance(rank_of(from), rank_of(to)) == 1
        &&& distance(file_of(from), file_of(to)) == 1
    }

    /// The move from `from` to `to` removes the piece of the given kind and
    /// color from `sq`: it is the enemy piece on `to`, or the enemy pawn
    /// behind the target of an en-passant capture.
    pub open spec fn captured(
        &self,
        from: int,
        to: int,
        piece_type: PieceType,
        color: Color,
        sq: int,
    ) -> bool {
        &&& self.piece_at(from) matches Some((_, mover))
        &&& color == mover.other()
        &&& {
            ||| (sq == to && self.piece_at(to) == Some((piece_type, color)))
            ||| (piece_type == PieceType::Pawn && self.captures_en_passant(from, to) && sq
                == passed_pawn(mover, to))
        }
    }

    /// The squares of one kind of piece of one color after the move from
    /// `from` to `to`. The piece that moves leaves `from` and stands on
    /// `to`; an enemy piece that is captured leaves its square; everything
    /// else stays. With no piece on `from` nothing moves.
    pub open spec fn squares_after(
        &self,
        from: int,
        to: int,
        piece_type: PieceType,
        color: Color,
    ) -> Set<int> {
        match self.piece_at(from) {
            None => self.squares(piece_type, color),
            Some(mover) => if mover == (piece_type, color) {
                self.squares(piece_type, color).remove(from).insert(to)
            } else {
                Set::new(
                    |sq: int|
                        self.squares(piece_type, color).contains(sq) && !self.captured(
                            from,
                            to,
                            piece_type,
                            color,
                            sq,
                        ),
                )
            },
        }
    }

    /// The en-passant target after the move from `from` to `to`: the square
    /// passed over if a pawn advances two ranks from its home rank, and none
    /// after any other move. With no piece on `from` it stays as it is.
    pub open spec fn en_passant_after(&self, from: int, to: int) -> Option<u8> {
        match self.piece_at(from) {
            None => self.en_passant(),
            Some((piece_type, color)) => if piece_type == PieceType::Pawn && rank_of(from)
                == home_rank(color) && to == from + 16 * forward(color) {
                Some((from + 8 * forward(color)) as u8)
            } else {
                None
            },
        }
    }

    /// The move from `from` to `to` would put a piece onto a square that
    /// holds another kind of piece of its own color.
    pub open spec fn blocked_by_own(&self, from: int, to: int) -> bool {
        &&& self.piece_at(from) matches Some((piece_type, color))
        &&& self.piece_at(to) matches Some((kind, side))
        &&& side == color
        &&& kind != piece_type
    }

    /// Stores the bitboard of one kind of piece of one color.
    fn put_pieces(&mut self, piece_type: PieceType, color: Color, bitboard: Bitboard)
        ensures
            final(self).pieces(piece_type, color) == bitboard,
            forall|other: PieceType, other_color: Color|
                other != piece_type || other_color != color ==> #[trigger] final(self).pieces(
                    other,
                    other_color,
                ) == old(self).pieces(other, other_color),
            final(self).en_passant() == old(self).en_passant(),
    {
        match (color, piece_type) {
            (Color::White, PieceType::Pawn) => self.white_pawns = bitboard,
            (Color::White, PieceType::Knight) => self.white_knights = bitboard,
            (Color::White, PieceType::Bishop) => self.white_bishops = bitboard,
            (Color::White, PieceType::Rook) => self.white_rooks = bitboard,
            (Color::White, PieceType::Queen) => self.white_queens = bitboard,
            (Color::White, PieceType::King) => self.white_king = bitboard,
            (Color::Black, PieceType::Pawn) => self.black_pawns = bitboard,
            (Color::Black, PieceType::Knight) => self.black_knights = bitboard,
            (Color::Black, PieceType::Bishop) => self.black_bishops = bitboard,
            (Color::Black, PieceType::Rook) => self.black_rooks = bitboard,
            (Color::Black, PieceType::Queen) => self.black_queens = bitboard,
            (Color::Black, PieceType::King) => self.black_king = bitboard,
        }
    }

    /// Plays the move of the piece on `from` to `to`.
    ///
    /// The piece leaves `from` and stands on `to`. An enemy piece on `to` is
    /// captured; a pawn that moves diagonally onto the en-passant target
    /// captures the enemy pawn behind it. The en-passant target is then set
    /// anew: to the square passed over if the move is a pawn's advance by two
    /// ranks from its home rank, to none otherwise.
    ///
    /// With no piece on `from` the move is refused and the board stays as it
    /// is. Whether `to` is among `get_moves(from)` is not asked.
    pub fn apply_move(&mut self, from: u8, to: u8) -> (r: Result<(), InvalidMove>)
        requires
            from < 64,
            to < 64,
        ensures
            old(self).piece_at(from as int) is None ==> r == Err::<(), InvalidMove>(
                InvalidMove { from, to },
            ) && *final(self) == *old(self),
            old(self).piece_at(from as int) is Some ==> r is Ok,
            forall|piece_type: PieceType, color: Color| #[trigger]
                final(self).squares(piece_type, color) == old(self).squares_after(
                    from as int,
                    to as int,
                    piece_type,
                    color,
                ),
            final(self).en_passant() == old(self).en_passant_after(from as int, to as int),
            old(self).wf() ==> (final(self).wf() <==> !old(self).blocked_by_own(
                from as int,
                to as int,
            )),
            old(self).wf() && old(self).moves_from(from as int).contains(to as int)
                ==> final(self).wf(),
            old(self).wf() ==> final(self).color_squares(Color::White).disjoint(
                final(self).color_squares(Color::Black),
            ),
            old(self).wf() && old(self).piece_at(from as int) is Some && !old(self).blocked_by_own(
                from as int,
                to as int,
            ) ==> final(self).piece_at(to as int) == old(self).piece_at(from as int) && (from != to
                ==> final(self).piece_at(from as int) is None),
            r is Ok || old(self).target_behind_pawn() ==> final(self).target_behind_pawn(),
    {
        let (piece_type, color) = match self.get_piece_at(from) {
            Some(piece) => piece,
            None => {
                proof {
                    self.lemma_after_move(*self, from as int, to as int);
                }
                return Err(InvalidMove { from, to });
            },
        };
        let victim = self.get_piece_at(to);
        let from_rank = from / 8;
        let from_file = from % 8;
        let to_rank = to / 8;
        let to_file = to % 8;
        let onto_target = match self.en_passant_square {
            Some(target) => target == to,
            None => false,
        };
        let en_passant = piece_type == PieceType::Pawn && onto_target && (from_rank + 1 == to_rank
            || to_rank + 1 == from_rank) && (from_file + 1 == to_file || to_file + 1 == from_file);
        proof {
            assert(en_passant == self.captures_en_passant(from as int, to as int));
        }

        // The piece leaves its square
        let ghost before = *self;
        let mut moved = self.get_pieces(piece_type, color);
        moved.clear_bit(from);

        // An enemy piece on the destination is captured
        match victim {
            Some((kind, side)) => {
                if side != color {
                    let mut taken = self.get_pieces(kind, side);
                    taken.clear_bit(to);
                    self.put_pieces(kind, side, taken);
                }
            },
            None => {},
        }
        let ghost after_capture = *self;
        proof {
            assert forall|kind: PieceType, side: Color|
                after_capture.squares(kind, side) == (if victim == Some((kind, side)) && side
                    != color {
                    before.squares(kind, side).remove(to as int)
                } else {
                    before.squares(kind, side)
                }) by {
                if victim == Some((kind, side)) && side != color {
                } else {
                    assert(after_capture.pieces(kind, side) == before.pieces(kind, side));
                }
            }
        }

        // En passant: the captured pawn stands behind the destination
        if en_passant {
            match color {
                Color::White => {
                    if to >= 8 {
                        let mut pawns = self.get_pieces(PieceType::Pawn, Color::Black);
                        pawns.clear_bit(to - 8);
                        self.put_pieces(PieceType::Pawn, Color::Black, pawns);
                    }
                },
                Color::Black => {
                    if to < 56 {
                        let mut pawns = self.get_pieces(PieceType::Pawn, Color::White);
                        pawns.clear_bit(to + 8);
                        self.put_pieces(PieceType::Pawn, Color::White, pawns);
                    }
                },
            }
        }
        let ghost after_en_passant = *self;
        proof {
            let behind = passed_pawn(color, to as int);
            assert forall|kind: PieceType, side: Color|
                after_en_passant.squares(kind, side) == (if en_passant && kind == PieceType::Pawn
                    && side == color.other() {
                    after_capture.squares(kind, side).remove(behind)
                } else {
                    after_capture.squares(kind, side)
                }) by {
                after_capture.pieces(kind, side).lemma_view_finite();
                if en_passant && kind == PieceType::Pawn && side == color.other() {
                    if !on_board(behind) {
                        assert(after_en_passant.pieces(kind, side) == after_capture.pieces(
                            kind,
                            side,
                        ));
                        assert(after_capture.squares(kind, side).remove(behind)
                            =~= after_capture.squares(kind, side));
                    }
                } else {
                    assert(after_en_passant.pieces(kind, side) == after_capture.pieces(
                        kind,
                        side,
                    ));
                }
            }
        }

        // The piece arrives
        moved.set_bit(to);
        self.put_pieces(piece_type, color, moved);
        let ghost after_arrival = *self;

        // A pawn that advanced two ranks from its home rank can be captured en passant
        self.en_passant_square = if piece_type == PieceType::Pawn {
            match color {
                Color::White => if from_rank == 1 && to == from + 16 {
                    Some(from + 8)
                } else {
                    None
                },
                Color::Black => if from_rank == 6 && from == to + 16 {
                    Some(from - 8)
                } else {
                    None
                },
            }
        } else {
            None
        };

        proof {
            assert forall|kind: PieceType, side: Color| #[trigger]
                self.squares(kind, side) == before.squares_after(
                    from as int,
                    to as int,
                    kind,
                    side,
                ) by {
                assert(self.pieces(kind, side) == after_arrival.pieces(kind, side));
                if kind == piece_type && side == color {
                    assert(after_en_passant.squares(kind, side) == before.squares(kind, side));
                    assert(self.pieces(kind, side) == moved);
                } else {
                    assert(self.pieces(kind, side) == after_en_passant.pieces(kind, side));
                    assert forall|sq: int|
                        self.squares(kind, side).contains(sq) == (before.squares(
                            kind,
                            side,
                        ).contains(sq) && !before.captured(
                            from as int,
                            to as int,
                            kind,
                            side,
                            sq,
                        )) by {
                        assert(before.piece_at(to as int) == victim);
                    }
                }
                assert(self.squares(kind, side) =~= before.squares_after(
                    from as int,
                    to as int,
                    kind,
                    side,
                ));
            }
            before.lemma_after_move(*self, from as int, to as int);
        }
        Ok(())
    }

    /// What follows for a board `after` that holds the pieces of this board
    /// after the move from `from` to `to`: when it is well formed, and where
    /// the piece that moved is found.
    pub proof fn lemma_after_move(self, after: Board, from: int, to: int)
        requires
            on_board(from),
            on_board(to),
            forall|piece_type: PieceType, color: Color| #[trigger]
                after.squares(piece_type, color) == self.squares_after(
                    from,
                    to,
                    piece_type,
                    color,
                ),
        ensures
            self.wf() ==> (after.wf() <==> !self.blocked_by_own(from, to)),
            self.wf() && self.moves_from(from).contains(to) ==> after.wf(),
            self.wf() ==> after.color_squares(Color::White).disjoint(
                after.color_squares(Color::Black),
            ),
            self.wf() && self.piece_at(from) is Some && !self.blocked_by_own(from, to)
                ==> after.piece_at(to) == self.piece_at(from) && (from != to ==> after.piece_at(
                from,
            ) is None),
    {
        if self.moves_from(from).contains(to) {
            self.lemma_moves_avoid_own(from, to);
            self.lemma_piece_at_occupied(to);
        }
        if self.wf() {
            assert forall|sq: int, first: PieceType, second: PieceType|
                !(after.squares(first, Color::White).contains(sq) && after.squares(
                    second,
                    Color::Black,
                ).contains(sq)) by {
                self.lemma_piece_at(sq, first, Color::White);
                self.lemma_piece_at(sq, second, Color::Black);
                if self.piece_at(from) is Some {
                    let (piece_type, color) = self.piece_at(from).unwrap();
                    self.lemma_piece_at(from, piece_type, color);
                }
            }
            assert(after.color_squares(Color::White).disjoint(after.color_squares(Color::Black)));
            match self.piece_at(from) {
                None => {
                    assert forall|
                        sq: int,
                        first: PieceType,
                        first_color: Color,
                        second: PieceType,
                        second_color: Color,
                    | #[trigger]
                        after.squares(first, first_color).contains(sq) && #[trigger] after.squares(
                            second,
                            second_color,
                        ).contains(sq) implies first == second && first_color == second_color by {
                        assert(self.squares(first, first_color).contains(sq));
                        assert(self.squares(second, second_color).contains(sq));
                    }
                },
                Some((piece_type, color)) => {
                    self.lemma_piece_at(from, piece_type, color);
                    if self.blocked_by_own(from, to) {
                        let (kind, side) = self.piece_at(to).unwrap();
                        self.lemma_piece_at(to, kind, side);
                        assert(after.squares(kind, side).contains(to));
                        assert(after.squares(piece_type, color).contains(to));
                    } else {
                        assert forall|
                            sq: int,
                            first: PieceType,
                            first_color: Color,
                            second: PieceType,
                            second_color: Color,
                        | #[trigger]
                            after.squares(first, first_color).contains(sq)
                                && #[trigger] after.squares(second, second_color).contains(
                                sq,
                            ) implies first == second && first_color == second_color by {
                            self.lemma_piece_at(to, first, first_color);
                            self.lemma_piece_at(to, second, second_color);
                            if (first, first_color) != (piece_type, color) {
                                assert(self.squares(first, first_color).contains(sq));
                            }
                            if (second, second_color) != (piece_type, color) {
                                assert(self.squares(second, second_color).contains(sq));
                            }
                        }
                    }
                    if !self.blocked_by_own(from, to) {
                        assert(after.squares(piece_type, color).contains(to));
                        after.lemma_piece_at(to, piece_type, color);
                        if from != to {
                            assert forall|kind: PieceType, side: Color|
                                !after.squares(kind, side).contains(from) by {
                                if self.squares(kind, side).contains(from) {
                                    assert(kind == piece_type && side == color);
                                }
                            }
                            assert(!after.color_squares(Color::White).contains(from));
                            assert(!after.color_squares(Color::Black).contains(from));
                        }
                    }
                },
            }
        }
    }
}

} // verus!
