use checkbit::board::{Board, Color, InvalidMove, PieceType};

const KINDS: [PieceType; 6] = [
    PieceType::Pawn,
    PieceType::Knight,
    PieceType::Bishop,
    PieceType::Rook,
    PieceType::Queen,
    PieceType::King,
];

const COLORS: [Color; 2] = [Color::White, Color::Black];

// No square holds two pieces: the twelve bitboards are pairwise disjoint
fn is_well_formed(board: &Board) -> bool {
    let mut seen = 0u64;
    for color in COLORS {
        for kind in KINDS {
            let bits = board.get_pieces(kind, color).as_u64();
            if seen & bits != 0 {
                return false;
            }
            seen |= bits;
        }
    }
    true
}

#[test]
fn move_from_an_empty_square_is_refused() {
    let mut board = Board::initial();
    let before = board.clone();

    assert_eq!(
        board.apply_move(20, 28),
        Err(InvalidMove { from: 20, to: 28 })
    );
    assert_eq!(board, before);
}

#[test]
fn refused_move_keeps_the_en_passant_target() {
    let mut board = Board::initial();
    board.apply_move(12, 28).unwrap(); // e2-e4
    let before = board.clone();

    assert_eq!(
        board.apply_move(20, 21),
        Err(InvalidMove { from: 20, to: 21 })
    );
    assert_eq!(board.en_passant_target(), Some(20));
    assert_eq!(board, before);
}

#[test]
fn move_clears_the_origin_and_fills_the_destination() {
    let mut board = Board::initial();

    assert_eq!(board.apply_move(12, 28), Ok(())); // e2-e4
    assert_eq!(board.get_piece_at(12), None);
    assert_eq!(
        board.get_piece_at(28),
        Some((PieceType::Pawn, Color::White))
    );
    assert_eq!(
        board.get_pieces(PieceType::Pawn, Color::White).as_u64(),
        0x000000001000EF00
    );
    assert_eq!(board.get_color_pieces(Color::White).pop_count(), 16);
    assert_eq!(board.get_color_pieces(Color::Black).pop_count(), 16);
}

#[test]
fn every_move_of_the_initial_position_clears_its_origin() {
    let board = Board::initial();
    for from in 0..64 {
        let mover = board.get_piece_at(from);
        let moves = board.get_moves(from);
        for to in 0..64 {
            if moves.test_bit(to) {
                let mut next = board.clone();
                assert_eq!(next.apply_move(from, to), Ok(()));
                assert_eq!(next.get_piece_at(from), None);
                assert_eq!(next.get_piece_at(to), mover);
                assert!(is_well_formed(&next));
            }
        }
    }
}

#[test]
fn capture_removes_the_enemy_piece() {
    let mut board = Board::empty();
    board.place_piece(PieceType::Rook, Color::White, 27); // d4
    board.place_piece(PieceType::Pawn, Color::Black, 35); // d5

    assert_eq!(board.apply_move(27, 35), Ok(()));
    assert_eq!(
        board.get_pieces(PieceType::Rook, Color::White).as_u64(),
        1 << 35
    );
    assert_eq!(board.get_pieces(PieceType::Pawn, Color::Black).as_u64(), 0);
    assert_eq!(
        board.get_piece_at(35),
        Some((PieceType::Rook, Color::White))
    );
    assert_eq!(board.get_all_pieces().pop_count(), 1);
}

#[test]
fn double_push_sets_the_en_passant_target() {
    let mut board = Board::initial();
    assert_eq!(board.en_passant_target(), None);

    board.apply_move(12, 28).unwrap(); // e2-e4
    assert_eq!(board.en_passant_target(), Some(20)); // e3

    board.apply_move(57, 42).unwrap(); // Nb8-c6
    assert_eq!(board.en_passant_target(), None);
    assert_eq!(
        board.get_pieces(PieceType::Knight, Color::Black).as_u64(),
        0x4000040000000000
    );

    board.apply_move(28, 36).unwrap(); // e4-e5
    assert_eq!(board.en_passant_target(), None);

    board.apply_move(51, 35).unwrap(); // d7-d5
    assert_eq!(board.en_passant_target(), Some(43)); // d6
}

#[test]
fn two_ranks_from_another_rank_set_no_target() {
    let mut board = Board::empty();
    board.place_piece(PieceType::Pawn, Color::White, 20); // e3
    board.apply_move(20, 36).unwrap();
    assert_eq!(board.en_passant_target(), None);

    let mut board = Board::empty();
    board.place_piece(PieceType::Rook, Color::White, 12); // e2
    board.apply_move(12, 28).unwrap();
    assert_eq!(board.en_passant_target(), None);
}

#[test]
fn en_passant_capture_removes_the_passed_pawn() {
    let mut board = Board::empty();
    board.place_piece(PieceType::Pawn, Color::White, 35); // d5
    board.place_piece(PieceType::Pawn, Color::Black, 50); // c7

    board.apply_move(50, 34).unwrap(); // c7-c5
    assert_eq!(board.en_passant_target(), Some(42)); // c6

    let moves = board.get_moves(35);
    assert!(moves.test_bit(42)); // d5 takes on c6
    assert_eq!(moves.as_u64(), 0x00000C0000000000); // c6 and d6

    board.apply_move(35, 42).unwrap();
    assert!(!board.get_pieces(PieceType::Pawn, Color::Black).test_bit(34));
    assert_eq!(board.get_pieces(PieceType::Pawn, Color::Black).as_u64(), 0);
    assert_eq!(
        board.get_pieces(PieceType::Pawn, Color::White).as_u64(),
        1 << 42
    );
    assert_eq!(board.en_passant_target(), None);
}

#[test]
fn en_passant_needs_a_pawn_beside_the_passed_pawn() {
    let mut board = Board::empty();
    board.place_piece(PieceType::Pawn, Color::White, 35); // d5
    board.place_piece(PieceType::Pawn, Color::Black, 49); // b7

    board.apply_move(49, 33).unwrap(); // b7-b5
    assert_eq!(board.en_passant_target(), Some(41)); // b6

    // The pawn on d5 is two files away: it can only advance
    let moves = board.get_moves(35);
    assert_eq!(moves.as_u64(), 1 << 43);
    assert!(!moves.test_bit(41));
    assert!(!moves.test_bit(32));
}

#[test]
fn en_passant_capture_by_black() {
    let mut board = Board::empty();
    board.place_piece(PieceType::Pawn, Color::Black, 28); // e4
    board.place_piece(PieceType::Pawn, Color::White, 11); // d2

    board.apply_move(11, 27).unwrap(); // d2-d4
    assert_eq!(board.en_passant_target(), Some(19)); // d3
    assert_eq!(board.get_moves(28).as_u64(), 0x0000000000180000); // d3 and e3

    board.apply_move(28, 19).unwrap();
    assert_eq!(board.get_pieces(PieceType::Pawn, Color::White).as_u64(), 0);
    assert_eq!(
        board.get_pieces(PieceType::Pawn, Color::Black).as_u64(),
        1 << 19
    );
}

#[test]
fn en_passant_lasts_one_move() {
    let mut board = Board::empty();
    board.place_piece(PieceType::Pawn, Color::White, 35); // d5
    board.place_piece(PieceType::Pawn, Color::Black, 50); // c7
    board.place_piece(PieceType::King, Color::White, 4); // e1

    board.apply_move(50, 34).unwrap(); // c7-c5
    assert!(board.get_moves(35).test_bit(42));

    board.apply_move(4, 5).unwrap(); // Ke1-f1
    assert_eq!(board.en_passant_target(), None);
    assert!(!board.get_moves(35).test_bit(42));
    assert_eq!(board.get_moves(35).as_u64(), 1 << 43);
}

#[test]
fn own_pawn_on_its_home_rank_does_not_capture_its_own_target() {
    let mut board = Board::initial();
    board.apply_move(11, 27).unwrap(); // d2-d4
    assert_eq!(board.en_passant_target(), Some(19)); // d3

    // c2 and e2 stand diagonally behind d3, but not on the rank of an en-passant capture
    assert_eq!(board.get_moves(10).as_u64(), 0x0000000004040000);
    assert_eq!(board.get_moves(12).as_u64(), 0x0000000010100000);
}

#[test]
fn moves_keep_the_pieces_apart() {
    let mut board = Board::initial();
    assert!(is_well_formed(&board));

    let line: [(u8, u8); 9] = [
        (12, 28), // e4
        (51, 35), // d5
        (28, 35), // exd5
        (59, 35), // Qxd5
        (1, 18),  // Nc3
        (35, 36), // Qe5+
        (5, 12),  // Be2
        (50, 34), // c5
        (18, 35), // Nd5
    ];
    for (from, to) in line {
        assert!(board.get_moves(from).test_bit(to));
        assert_eq!(board.apply_move(from, to), Ok(()));
        assert!(is_well_formed(&board));
    }
    assert_eq!(board.get_color_pieces(Color::White).pop_count(), 15);
    assert_eq!(board.get_color_pieces(Color::Black).pop_count(), 15);
    assert_eq!(
        (board.get_color_pieces(Color::White) & board.get_color_pieces(Color::Black)).as_u64(),
        0
    );
}

#[test]
fn move_onto_another_piece_of_the_same_color_keeps_both() {
    let mut board = Board::initial();

    // Not among the rook's moves, and not refused either
    assert!(!board.get_moves(0).test_bit(8));
    assert_eq!(board.apply_move(0, 8), Ok(())); // Ra1 onto the pawn on a2
    assert!(board.get_pieces(PieceType::Rook, Color::White).test_bit(8));
    assert!(board.get_pieces(PieceType::Pawn, Color::White).test_bit(8));
    assert!(!is_well_formed(&board));
    assert_eq!(board.get_piece_at(8), Some((PieceType::Pawn, Color::White)));
    // The two colors stay apart all the same
    assert_eq!(
        (board.get_color_pieces(Color::White) & board.get_color_pieces(Color::Black)).as_u64(),
        0
    );
}

#[test]
fn placing_sets_one_bit_and_clears_nothing() {
    let mut board = Board::initial();
    board.apply_move(12, 28).unwrap(); // e2-e4
    let before = board.clone();

    board.place_piece(PieceType::Queen, Color::Black, 36); // e5
    assert_eq!(
        board.get_pieces(PieceType::Queen, Color::Black).as_u64(),
        before.get_pieces(PieceType::Queen, Color::Black).as_u64() | 1 << 36
    );
    for color in COLORS {
        for kind in KINDS {
            if (kind, color) != (PieceType::Queen, Color::Black) {
                assert_eq!(board.get_pieces(kind, color), before.get_pieces(kind, color));
            }
        }
    }
    assert_eq!(board.en_passant_target(), Some(20));
    assert!(is_well_formed(&board));
}

#[test]
fn placing_onto_a_piece_overlaps() {
    let mut board = Board::empty();
    board.place_piece(PieceType::Knight, Color::Black, 27);
    board.place_piece(PieceType::Rook, Color::White, 27);

    assert!(!is_well_formed(&board));
    // White is looked at first
    assert_eq!(
        board.get_piece_at(27),
        Some((PieceType::Rook, Color::White))
    );

    board.place_piece(PieceType::Pawn, Color::White, 27);
    // and the pawn before the rook
    assert_eq!(
        board.get_piece_at(27),
        Some((PieceType::Pawn, Color::White))
    );
}

#[test]
fn moves_are_the_same_when_asked_twice() {
    let mut board = Board::initial();
    board.apply_move(12, 28).unwrap();
    board.apply_move(51, 35).unwrap();
    let before = board.clone();

    for square in 0..64 {
        let first = board.get_moves(square);
        let second = board.get_moves(square);
        assert_eq!(first, second);
    }
    assert_eq!(board, before);
}

#[test]
fn moves_from_an_empty_square_are_empty() {
    let board = Board::initial();
    for square in 16..48 {
        assert_eq!(board.get_moves(square).as_u64(), 0);
    }
    assert_eq!(Board::empty().get_moves(0).as_u64(), 0);
}

#[test]
fn clone_is_independent() {
    let board = Board::initial();
    let mut copy = board.clone();
    assert_eq!(copy, board);

    copy.apply_move(12, 28).unwrap();
    assert_ne!(copy, board);
    assert_eq!(board.get_piece_at(12), Some((PieceType::Pawn, Color::White)));
}

#[test]
fn opposite_color() {
    assert_eq!(Color::White.opposite(), Color::Black);
    assert_eq!(Color::Black.opposite(), Color::White);
}
