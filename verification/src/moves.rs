//! Move generation: where the piece on a square can go.
//!
//! The moves are pseudo-legal. The kind of the piece and the pieces in its
//! way decide; whether the mover's own king is attacked afterwards does not.

use vstd::prelude::*;
use core::ops::Not;
use crate::bitboard::Bitboard;
use crate::board::{forward, home_rank, Board, Color, PieceType};
use crate::constants::{
    lemma_king_table,
    lemma_knight_table,
    lemma_ray_tables,
    EAST_RAY,
    KING_MOVES,
    KNIGHT_MOVES,
    NORTH_RAY,
    SOUTH_RAY,
    WEST_RAY,
};
use crate::geometry::{
    all_squares,
    bishop_targets,
    diagonal_of,
    diagonal_targets,
    distance,
    file_of,
    king_targets,
    knight_targets,
    on_board,
    open_to,
    path_clear,
    queen_targets,
    rank_of,
    rook_targets,
    strictly_between,
    up_to_blocker,
};
use crate::sliding::{
    diagonal_up_to,
    lemma_bishop_reach,
    lemma_diagonal_between,
    lemma_diagonal_ends,
    lemma_diagonal_grows,
    lemma_rook_reach,
    lemma_square_coordinates,
    no_further,
};

verus! {

/// The rank from which a pawn of a color captures en passant, counted from
/// 0: the rank that an enemy pawn reaches with its advance by two.
pub open spec fn en_passant_rank(color: Color) -> int {
    match color {
        Color::White => 4,
        Color::Black => 3,
    }
}

/// `to` is one of the two squares diagonally in front of a pawn of `color`
/// on `from`.
pub open spec fn pawn_diagonal(color: Color, from: int, to: int) -> bool {
    &&& on_board(from)
    &&& on_board(to)
    &&& rank_of(to) == rank_of(from) + forward(color)
    &&& distance(file_of(from), file_of(to)) == 1
}

/// The two squares diagonally in front of a pawn, as differences of indices.
proof fn lemma_pawn_diagonal(color: Color, from: int, to: int)
    requires
        on_board(from),
    ensures
        pawn_diagonal(color, from, to) == match color {
            Color::White => from < 56 && ((file_of(from) != 0 && to == from + 7) || (file_of(from)
                != 7 && to == from + 9)),
            Color::Black => from >= 8 && ((file_of(from) != 0 && to == from - 9) || (file_of(from)
                != 7 && to == from - 7)),
        },
        rank_of(from) == en_passant_rank(color) <==> match color {
            Color::White => 32 <= from < 40,
            Color::Black => 24 <= from < 32,
        },
{
    lemma_square_coordinates(from);
    lemma_square_coordinates(to);
}

impl Board {
    /// A pawn of `color` on `from` may advance one rank to `to`: the square
    /// in front of it is empty.
    pub open spec fn pawn_push(&self, color: Color, from: int, to: int) -> bool {
        on_board(to) && to == from + 8 * forward(color) && !self.occupied().contains(to)
    }

    /// A pawn of `color` on `from` may advance two ranks to `to`: it stands
    /// on its home rank, and both squares in front of it are empty.
    pub open spec fn pawn_double_push(&self, color: Color, from: int, to: int) -> bool {
        &&& rank_of(from) == home_rank(color)
        &&& to == from + 16 * forward(color)
        &&& !self.occupied().contains(from + 8 * forward(color))
        &&& !self.occupied().contains(to)
    }

    /// A pawn of `color` on `from` may capture on `to`: the square is
    /// diagonally in front of it and holds an enemy piece.
    pub open spec fn pawn_capture(&self, color: Color, from: int, to: int) -> bool {
        pawn_diagonal(color, from, to) && self.color_squares(color.other()).contains(to)
    }

    /// A pawn of `color` on `from` may capture en passant on `to`: the
    /// square is diagonally in front of it and is the en-passant target, and
    /// the pawn stands on the rank beside the pawn that passed the target.
    pub open spec fn pawn_en_passant(&self, color: Color, from: int, to: int) -> bool {
        &&& pawn_diagonal(color, from, to)
        &&& rank_of(from) == en_passant_rank(color)
        &&& self.en_passant() matches Some(target)
        &&& target == to
    }

    /// The squares a pawn of `color` on `from` may move to, before the
    /// squares of its own color are taken out.
    pub open spec fn pawn_targets(&self, color: Color, from: int) -> Set<int> {
        Set::new(
            |to: int|
                on_board(from) && (self.pawn_push(color, from, to) || self.pawn_double_push(
                    color,
                    from,
                    to,
                ) || self.pawn_capture(color, from, to) || self.pawn_en_passant(color, from, to)),
        )
    }

    /// The squares a piece of the given kind and color on `from` attacks or
    /// may advance to, its own color's squares not yet taken out.
    pub open spec fn attack_squares(&self, piece_type: PieceType, color: Color, from: int) -> Set<
        int,
    > {
        match piece_type {
            PieceType::Knight => knight_targets(from),
            PieceType::King => king_targets(from),
            PieceType::Pawn => self.pawn_targets(color, from),
            PieceType::Bishop => bishop_targets(self.occupied(), from),
            PieceType::Rook => rook_targets(self.occupied(), from),
            PieceType::Queen => queen_targets(self.occupied(), from),
        }
    }

    /// The pseudo-legal moves of the piece on `from`: where its kind of
    /// piece can go on this board, without the squares that hold a piece of
    /// its own color. Empty if `from` holds no piece.
    pub open spec fn moves_from(&self, from: int) -> Set<int> {
        match self.piece_at(from) {
            Some((piece_type, color)) => self.attack_squares(piece_type, color, from).difference(
                self.color_squares(color),
            ),
            None => Set::empty(),
        }
    }

    /// The moves from a square stay on the board and never lead onto a
    /// piece of the mover's own color.
    pub proof fn lemma_moves_avoid_own(self, from: int, to: int)
        requires
            self.moves_from(from).contains(to),
        ensures
            on_board(from),
            on_board(to),
            self.piece_at(from) matches Some((_, color)) && !self.color_squares(color).contains(
                to,
            ),
    {
        let (piece_type, color) = self.piece_at(from).unwrap();
        self.lemma_piece_at_occupied(from);
        self.pieces(piece_type, color).lemma_view_finite();
    }

    /// Asking for the moves of a square twice gives the same bitboard: any
    /// two bitboards that hold the moves from `from` on this board are equal.
    pub proof fn lemma_moves_repeatable(&self, from: int, first: Bitboard, second: Bitboard)
        requires
            first@ == self.moves_from(from),
            second@ == self.moves_from(from),
        ensures
            first == second,
    {
        first.lemma_view_determines(second);
    }

    /// Gets all pseudo-legal moves for a piece at the given square: the
    /// squares its kind of piece reaches on this board, without those that
    /// hold a piece of its own color. An empty square has no moves.
    pub fn get_moves(&self, square: u8) -> (r: Bitboard)
        requires
            square < 64,
        ensures
            r@ == self.moves_from(square as int),
    {
        match self.get_piece_at(square) {
            Some((piece_type, color)) => {
                let moves = match piece_type {
                    PieceType::Knight => self.get_knight_moves(square, color),
                    PieceType::King => self.get_king_moves(square, color),
                    PieceType::Pawn => self.get_pawn_moves(square, color),
                    PieceType::Bishop => self.get_bishop_moves(square, color),
                    PieceType::Rook => self.get_rook_moves(square, color),
                    PieceType::Queen => self.get_queen_moves(square, color),
                };
                // Remove moves that would capture own pieces
                let own_pieces = self.get_color_pieces(color);
                proof {
                    moves.lemma_view_finite();
                    assert(self.occupied().subset_of(
                        self.color_squares(color).union(self.color_squares(color.other())),
                    ));
                    assert(moves@.intersect(all_squares().difference(own_pieces@))
                        =~= self.attack_squares(piece_type, color, square as int).difference(
                        self.color_squares(color),
                    ));
                }
                moves & own_pieces.not()
            },
            None => Bitboard::empty(),
        }
    }

    /// The squares a knight on `square` attacks, looked up in the table.
    fn get_knight_moves(&self, square: u8, _color: Color) -> (r: Bitboard)
        requires
            square < 64,
        ensures
            r@ == knight_targets(square as int),
    {
        proof {
            lemma_knight_table(square as int);
        }
        Bitboard::from_u64(KNIGHT_MOVES[square as usize])
    }

    /// The squares a king on `square` attacks, looked up in the table.
    fn get_king_moves(&self, square: u8, _color: Color) -> (r: Bitboard)
        requires
            square < 64,
        ensures
            r@ == king_targets(square as int),
    {
        proof {
            lemma_king_table(square as int);
        }
        Bitboard::from_u64(KING_MOVES[square as usize])
    }

    /// The squares a pawn of `color` on `square` may move to: one step
    /// forward onto an empty square, two from its home rank over two empty
    /// squares, diagonally forward onto an enemy piece or onto the
    /// en-passant target.
    fn get_pawn_moves(&self, square: u8, color: Color) -> (r: Bitboard)
        requires
            square < 64,
        ensures
            r@ == self.pawn_targets(color, square as int),
    {
        let mut moves = Bitboard::empty();
        let all_pieces = self.get_all_pieces();
        let enemy_pieces = self.get_color_pieces(color.opposite());

        match color {
            Color::White => {
                // Check if pawn is not on the last rank
                if square < 56 {
                    // Single push
                    if !all_pieces.test_bit(square + 8) {
                        moves.set_bit(square + 8);
                        // Double push from starting position
                        if square >= 8 && square < 16 && !all_pieces.test_bit(square + 16) {
                            moves.set_bit(square + 16);
                        }
                    }
                    // Regular captures
                    if square % 8 != 0 && square < 57 && enemy_pieces.test_bit(square + 7) {
                        moves.set_bit(square + 7);
                    }
                    if square % 8 != 7 && square < 55 && enemy_pieces.test_bit(square + 9) {
                        moves.set_bit(square + 9);
                    }
                    // En passant captures
                    if let Some(ep_square) = self.en_passant_target() {
                        if square >= 32 && square < 40 {
                            // White pawns on rank 5
                            if square % 8 != 0 && ep_square == square + 7 {
                                moves.set_bit(ep_square);
                            }
                            if square % 8 != 7 && ep_square == square + 9 {
                                moves.set_bit(ep_square);
                            }
                        }
                    }
                }
            },
            Color::Black => {
                // Check if pawn is not on the first rank
                if square >= 8 {
                    // Single push
                    if !all_pieces.test_bit(square - 8) {
                        moves.set_bit(square - 8);
                        // Double push from starting position
                        if square >= 48 && square < 56 && !all_pieces.test_bit(square - 16) {
                            moves.set_bit(square - 16);
                        }
                    }
                    // Regular captures
                    if square % 8 != 0 && square >= 9 && enemy_pieces.test_bit(square - 9) {
                        moves.set_bit(square - 9);
                    }
                    if square % 8 != 7 && square >= 7 && enemy_pieces.test_bit(square - 7) {
                        moves.set_bit(square - 7);
                    }
                    // En passant captures
                    if let Some(ep_square) = self.en_passant_target() {
                        if square >= 24 && square < 32 {
                            // Black pawns on rank 4
                            if square % 8 != 0 && ep_square == square - 9 {
                                moves.set_bit(ep_square);
                            }
                            if square % 8 != 7 && ep_square == square - 7 {
                                moves.set_bit(ep_square);
                            }
                        }
                    }
                }
            },
        }
        proof {
            self.lemma_pawn_steps(color, square as int);
            assert(moves@ =~= self.pawn_steps(color, square as int));
        }
        moves
    }

    /// The targets of a pawn, each as a difference of indices with the
    /// condition under which it is one.
    spec fn pawn_steps(&self, color: Color, from: int) -> Set<int> {
        let occupied = self.occupied();
        let enemy = self.color_squares(color.other());
        let file = file_of(from);
        let target = self.en_passant();
        match color {
            Color::White => Set::new(
                |to: int|
                    from < 56 && {
                        ||| (!occupied.contains(from + 8) && to == from + 8)
                        ||| (!occupied.contains(from + 8) && 8 <= from < 16 && !occupied.contains(
                            from + 16,
                        ) && to == from + 16)
                        ||| (file != 0 && enemy.contains(from + 7) && to == from + 7)
                        ||| (file != 7 && enemy.contains(from + 9) && to == from + 9)
                        ||| (target is Some && 32 <= from < 40 && file != 0 && target->0 == from
                            + 7 && to == from + 7)
                        ||| (target is Some && 32 <= from < 40 && file != 7 && target->0 == from
                            + 9 && to == from + 9)
                    },
            ),
            Color::Black => Set::new(
                |to: int|
                    from >= 8 && {
                        ||| (!occupied.contains(from - 8) && to == from - 8)
                        ||| (!occupied.contains(from - 8) && 48 <= from < 56 && !occupied.contains(
                            from - 16,
                        ) && to == from - 16)
                        ||| (file != 0 && enemy.contains(from - 9) && to == from - 9)
                        ||| (file != 7 && enemy.contains(from - 7) && to == from - 7)
                        ||| (target is Some && 24 <= from < 32 && file != 0 && target->0 == from
                            - 9 && to == from - 9)
                        ||| (target is Some && 24 <= from < 32 && file != 7 && target->0 == from
                            - 7 && to == from - 7)
                    },
            ),
        }
    }

    proof fn lemma_pawn_steps(&self, color: Color, from: int)
        requires
            on_board(from),
        ensures
            self.pawn_steps(color, from) == self.pawn_targets(color, from),
    {
        lemma_square_coordinates(from);
        assert forall|to: int|
            self.pawn_steps(color, from).contains(to) == self.pawn_targets(color, from).contains(
                to,
            ) by {
            lemma_square_coordinates(to);
            lemma_pawn_diagonal(color, from, to);
            match color {
                Color::White => {
                    assert(self.pawn_push(color, from, to) == (from < 56 && to == from + 8
                        && !self.occupied().contains(to)));
                    assert(self.pawn_double_push(color, from, to) == (8 <= from < 16 && to == from
                        + 16 && !self.occupied().contains(from + 8) && !self.occupied().contains(
                        to,
                    )));
                },
                Color::Black => {
                    assert(self.pawn_push(color, from, to) == (from >= 8 && to == from - 8
                        && !self.occupied().contains(to)));
                    assert(self.pawn_double_push(color, from, to) == (48 <= from < 56 && to == from
                        - 16 && !self.occupied().contains(from - 8) && !self.occupied().contains(
                        to,
                    )));
                },
            }
        }
        assert(self.pawn_steps(color, from) =~= self.pawn_targets(color, from));
    }

    /// The squares a bishop of `color` on `square` may move to: along each
    /// diagonal up to the first occupied square, which counts if it holds an
    /// enemy piece.
    fn get_bishop_moves(&self, square: u8, color: Color) -> (r: Bitboard)
        requires
            square < 64,
        ensures
            r@ == open_to(
                bishop_targets(self.occupied(), square as int),
                self.occupied(),
                self.color_squares(color.other()),
            ),
    {
        let mut moves = Bitboard::empty();
        let all_pieces = self.get_all_pieces();
        let enemy_pieces = self.get_color_pieces(color.opposite());

        // Northeast
        self.add_diagonal_moves(&mut moves, square, true, true, all_pieces, enemy_pieces);
        // Southeast
        self.add_diagonal_moves(&mut moves, square, false, true, all_pieces, enemy_pieces);
        // Southwest
        self.add_diagonal_moves(&mut moves, square, false, false, all_pieces, enemy_pieces);
        // Northwest
        self.add_diagonal_moves(&mut moves, square, true, false, all_pieces, enemy_pieces);

        proof {
            lemma_bishop_reach(all_pieces@, square as int);
            assert(moves@ =~= open_to(
                bishop_targets(all_pieces@, square as int),
                all_pieces@,
                enemy_pieces@,
            ));
        }
        moves
    }

    /// Adds to `moves` the squares a slider on `square` can move to along
    /// one diagonal: the empty squares up to the first occupied one, and
    /// that square if it holds an enemy piece.
    fn add_diagonal_moves(
        &self,
        moves: &mut Bitboard,
        square: u8,
        up: bool,
        right: bool,
        all_pieces: Bitboard,
        enemy_pieces: Bitboard,
    )
        requires
            square < 64,
        ensures
            final(moves)@ == old(moves)@.union(
                open_to(
                    diagonal_targets(all_pieces@, square as int, up, right),
                    all_pieces@,
                    enemy_pieces@,
                ),
            ),
    {
        let mut current_square = square;
        let delta_rank: i8 = if up {
            1
        } else {
            -1
        };
        let delta_file: i8 = if right {
            1
        } else {
            -1
        };
        let ghost start = moves@;
        proof {
            assert(moves@ =~= start.union(
                diagonal_up_to(square as int, current_square as int, up, right),
            )) by {
                lemma_square_coordinates(square as int);
            }
        }

        loop
            invariant_except_break
                moves@ == start.union(
                    diagonal_up_to(square as int, current_square as int, up, right),
                ),
            invariant
                square < 64,
                current_square < 64,
                delta_rank == (if up {
                    1int
                } else {
                    -1int
                }),
                delta_file == (if right {
                    1int
                } else {
                    -1int
                }),
                current_square == square || diagonal_of(
                    square as int,
                    current_square as int,
                    up,
                    right,
                ),
                forall|s: int|
                    diagonal_up_to(square as int, current_square as int, up, right).contains(s)
                        ==> !all_pieces@.contains(s),
            ensures
                moves@ == start.union(
                    open_to(
                        diagonal_targets(all_pieces@, square as int, up, right),
                        all_pieces@,
                        enemy_pieces@,
                    ),
                ),
            decreases
                    (if up {
                        64 - current_square
                    } else {
                        current_square as int
                    }),
        {
            let rank = (current_square / 8) as i8;
            let file = (current_square % 8) as i8;

            let new_rank = rank + delta_rank;
            let new_file = file + delta_file;

            // Check board boundaries
            if new_rank < 0 || new_rank > 7 || new_file < 0 || new_file > 7 {
                proof {
                    lemma_diagonal_ends(square as int, current_square as int, up, right);
                    assert forall|to: int|
                        diagonal_of(square as int, to, up, right) implies path_clear(
                        all_pieces@,
                        square as int,
                        to,
                    ) by {
                        assert forall|s: int| on_board(s) && #[trigger] strictly_between(
                            square as int,
                            to,
                            s,
                        ) implies !all_pieces@.contains(s) by {
                            lemma_diagonal_between(square as int, to, s, up, right);
                            assert(diagonal_up_to(
                                square as int,
                                current_square as int,
                                up,
                                right,
                            ).contains(s));
                        }
                    }
                    assert(moves@ =~= start.union(
                        open_to(
                            diagonal_targets(all_pieces@, square as int, up, right),
                            all_pieces@,
                            enemy_pieces@,
                        ),
                    ));
                }
                break ;
            }
            let new_square = (new_rank * 8 + new_file) as u8;
            proof {
                lemma_diagonal_grows(
                    square as int,
                    current_square as int,
                    new_square as int,
                    up,
                    right,
                );
            }

            // Stop if we hit any piece
            if all_pieces.test_bit(new_square) {
                // Only an enemy piece can be moved onto
                if enemy_pieces.test_bit(new_square) {
                    moves.set_bit(new_square);
                }
                proof {
                    assert forall|to: int|
                        diagonal_targets(all_pieces@, square as int, up, right).contains(to)
                            == diagonal_up_to(square as int, new_square as int, up, right).contains(
                            to,
                        ) by {
                        if diagonal_of(square as int, to, up, right) {
                            if no_further(to, new_square as int, up) {
                                assert forall|s: int| on_board(s) && #[trigger] strictly_between(
                                    square as int,
                                    to,
                                    s,
                                ) implies !all_pieces@.contains(s) by {
                                    lemma_diagonal_between(square as int, to, s, up, right);
                                    assert(diagonal_up_to(
                                        square as int,
                                        current_square as int,
                                        up,
                                        right,
                                    ).contains(s));
                                }
                            } else {
                                assert(strictly_between(square as int, to, new_square as int));
                            }
                        }
                    }
                    assert forall|to: int|
                        moves@.contains(to) == start.union(
                            open_to(
                                diagonal_targets(all_pieces@, square as int, up, right),
                                all_pieces@,
                                enemy_pieces@,
                            ),
                        ).contains(to) by {
                        let covered = diagonal_up_to(
                            square as int,
                            current_square as int,
                            up,
                            right,
                        );
                        assert(diagonal_targets(all_pieces@, square as int, up, right).contains(to)
                            == covered.insert(new_square as int).contains(to));
                        if covered.contains(to) {
                            assert(!all_pieces@.contains(to));
                        }
                    }
                    assert(moves@ =~= start.union(
                        open_to(
                            diagonal_targets(all_pieces@, square as int, up, right),
                            all_pieces@,
                            enemy_pieces@,
                        ),
                    ));
                }
                break ;
            }
            moves.set_bit(new_square);
            current_square = new_square;
        }
    }

    /// The squares a rook of `color` on `square` may move to: along each
    /// ray of the tables up to the nearest occupied square, which counts if
    /// it holds an enemy piece.
    fn get_rook_moves(&self, square: u8, color: Color) -> (r: Bitboard)
        requires
            square < 64,
        ensures
            r@ == open_to(
                rook_targets(self.occupied(), square as int),
                self.occupied(),
                self.color_squares(color.other()),
            ),
    {
        let mut moves = Bitboard::empty();
        let all_pieces = self.get_all_pieces();
        let enemy_pieces = self.get_color_pieces(color.opposite());

        // Get all possible moves from precomputed rays
        let north = Bitboard::from_u64(NORTH_RAY[square as usize]);
        let south = Bitboard::from_u64(SOUTH_RAY[square as usize]);
        let east = Bitboard::from_u64(EAST_RAY[square as usize]);
        let west = Bitboard::from_u64(WEST_RAY[square as usize]);
        proof {
            lemma_ray_tables(square as int);
        }

        // For each direction, find the first piece (if any) and adjust moves accordingly.
        // North and east run towards higher indices, south and west towards lower ones.
        moves = moves | self.get_ray_moves(north, all_pieces, enemy_pieces, true);
        moves = moves | self.get_ray_moves(south, all_pieces, enemy_pieces, false);
        moves = moves | self.get_ray_moves(east, all_pieces, enemy_pieces, true);
        moves = moves | self.get_ray_moves(west, all_pieces, enemy_pieces, false);

        proof {
            lemma_rook_reach(all_pieces@, square as int);
            assert(moves@ =~= open_to(
                rook_targets(all_pieces@, square as int),
                all_pieces@,
                enemy_pieces@,
            ));
        }
        moves
    }

    /// Of a ray, the squares a slider can move to: those before the nearest
    /// occupied square, and that square if it holds an enemy piece. The ray
    /// is walked from its origin, towards higher indices if `ascending` and
    /// towards lower ones if not, so the nearest occupied square is the
    /// first one met.
    fn get_ray_moves(
        &self,
        ray: Bitboard,
        all_pieces: Bitboard,
        enemy_pieces: Bitboard,
        ascending: bool,
    ) -> (r: Bitboard)
        ensures
            r@ == open_to(up_to_blocker(ray@, all_pieces@, ascending), all_pieces@, enemy_pieces@),
    {
        let blockers = ray & all_pieces;
        let nearest = if ascending {
            blockers.lsb()
        } else {
            blockers.msb()
        };
        let first_blocker = match nearest {
            None => {
                // No blocking pieces, can move anywhere along the ray
                proof {
                    assert forall|to: int| ray@.contains(to) implies !all_pieces@.contains(to) by {
                        if all_pieces@.contains(to) {
                            assert(blockers@.contains(to));
                        }
                    }
                    assert(ray@ =~= open_to(
                        up_to_blocker(ray@, all_pieces@, ascending),
                        all_pieces@,
                        enemy_pieces@,
                    ));
                }
                return ray;
            },
            Some(sq) => sq,
        };
        proof {
            ray.lemma_view_finite();
            assert(blockers@.contains(first_blocker as int));
            assert forall|blocker: int|
                ray@.contains(blocker) && all_pieces@.contains(blocker) implies if ascending {
                first_blocker <= blocker
            } else {
                blocker <= first_blocker
            } by {
                assert(blockers@.contains(blocker));
            }
        }

        // Get moves up to and including the first blocker
        let mut moves = Bitboard::empty();
        let mut current_ray = ray;

        loop
            invariant_except_break
                moves@ == ray@.difference(current_ray@),
                forall|done: int, left: int|
                    moves@.contains(done) && current_ray@.contains(left) ==> if ascending {
                        done < left
                    } else {
                        left < done
                    },
            invariant
                first_blocker < 64,
                ray@.contains(first_blocker as int),
                all_pieces@.contains(first_blocker as int),
                forall|blocker: int|
                    ray@.contains(blocker) && all_pieces@.contains(blocker) ==> if ascending {
                        first_blocker <= blocker
                    } else {
                        blocker <= first_blocker
                    },
                current_ray@.subset_of(ray@),
                current_ray@.finite(),
                current_ray@.contains(first_blocker as int),
            ensures
                moves@ == open_to(
                    up_to_blocker(ray@, all_pieces@, ascending),
                    all_pieces@,
                    enemy_pieces@,
                ),
            decreases current_ray@.len(),
        {
            let next = if ascending {
                current_ray.lsb()
            } else {
                current_ray.msb()
            };
            match next {
                None => {
                    break ;
                },
                Some(sq) => {
                    let ghost before = moves@;
                    moves.set_bit(sq);
                    if sq == first_blocker {
                        // If the blocker is an enemy piece, include it as a valid move
                        // If it's a friendly piece, remove it
                        if !enemy_pieces.test_bit(sq) {
                            moves.clear_bit(sq);
                        }
                        proof {
                            assert forall|to: int|
                                moves@.contains(to) == open_to(
                                    up_to_blocker(ray@, all_pieces@, ascending),
                                    all_pieces@,
                                    enemy_pieces@,
                                ).contains(to) by {
                                if ray@.contains(to) && to != first_blocker {
                                    if before.contains(to) {
                                        assert(up_to_blocker(
                                            ray@,
                                            all_pieces@,
                                            ascending,
                                        ).contains(to));
                                    } else {
                                        assert(current_ray@.contains(to));
                                    }
                                }
                            }
                            assert(moves@ =~= open_to(
                                up_to_blocker(ray@, all_pieces@, ascending),
                                all_pieces@,
                                enemy_pieces@,
                            ));
                        }
                        break ;
                    }
                    current_ray.clear_bit(sq);
                    proof {
                        assert(moves@ =~= ray@.difference(current_ray@));
                    }
                },
            }
        }

        moves
    }

    /// The squares a queen of `color` on `square` may move to: those of a
    /// bishop and those of a rook.
    fn get_queen_moves(&self, square: u8, color: Color) -> (r: Bitboard)
        requires
            square < 64,
        ensures
            r@ == open_to(
                queen_targets(self.occupied(), square as int),
                self.occupied(),
                self.color_squares(color.other()),
            ),
    {
        let moves = self.get_bishop_moves(square, color) | self.get_rook_moves(square, color);
        proof {
            assert(moves@ =~= open_to(
                queen_targets(self.occupied(), square as int),
                self.occupied(),
                self.color_squares(color.other()),
            ));
        }
        moves
    }
}

} // verus!
