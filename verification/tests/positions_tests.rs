use checkbit::board::{Board, Color, PieceType};

// Helper function to setup a position from FEN-like description
fn setup_position(pieces: &[(&str, PieceType, Color)]) -> Board {
    let mut board = Board::empty();
    for (square_name, piece_type, color) in pieces {
        let file = square_name.chars().nth(0).unwrap() as u8 - b'a';
        let rank = square_name.chars().nth(1).unwrap() as u8 - b'1';
        let square = rank * 8 + file;
        board.place_piece(*piece_type, *color, square);
    }
    board
}

#[test]
fn test_discovered_attack_position() {
    // Test a position with a potential discovered attack
    let position = [
        ("e4", PieceType::Bishop, Color::White),
        ("f4", PieceType::Rook, Color::White),
        ("h4", PieceType::King, Color::Black),
    ];

    let board = setup_position(&position);

    // Verify bishop can move while maintaining rook's attack
    let bishop_moves = board.get_moves(28); // e4
    assert!(bishop_moves.pop_count() > 0);
}

#[test]
fn test_maximum_mobility_position() {
    // Test a position where a queen has maximum mobility
    let position = [
        ("d4", PieceType::Queen, Color::White),
        ("e1", PieceType::King, Color::White),
        ("e8", PieceType::King, Color::Black),
    ];

    let board = setup_position(&position);

    // Verify queen has maximum possible moves from center
    let queen_moves = board.get_moves(27); // d4
    assert_eq!(queen_moves.pop_count(), 27); // Queen should have 27 moves from d4
}

#[test]
fn test_king_safety_position() {
    // Test a position evaluating king safety
    let position = [
        ("g1", PieceType::King, Color::White),
        ("f1", PieceType::Rook, Color::White),
        ("h1", PieceType::Rook, Color::White),
        ("g2", PieceType::Pawn, Color::White),
        ("f2", PieceType::Pawn, Color::White),
        ("h2", PieceType::Pawn, Color::White),
    ];

    let board = setup_position(&position);

    // Verify king has limited but safe moves
    let king_moves = board.get_moves(6); // g1
    assert!(king_moves.pop_count() <= 3); // King should have very limited mobility
}

#[test]
fn test_fork_position() {
    // Test a position with a knight fork
    let position = [
        ("d4", PieceType::Knight, Color::White),
        ("c6", PieceType::King, Color::Black),
        ("e6", PieceType::Queen, Color::Black),
    ];

    let board = setup_position(&position);

    // Verify knight can attack both pieces
    let knight_moves = board.get_moves(27); // d4
    assert!(knight_moves.test_bit(42)); // c6
    assert!(knight_moves.test_bit(44)); // e6
}

// The moves are pseudo-legal: the geometry of the pieces and the squares
// in their way decide, not the safety of the king. The positions below
// pin that down.

#[test]
fn queen_reaches_f7_in_the_scholars_mate() {
    let position = [
        ("e4", PieceType::Pawn, Color::White),
        ("e5", PieceType::Pawn, Color::Black),
        ("c4", PieceType::Bishop, Color::White),
        ("c6", PieceType::Knight, Color::Black),
        ("h5", PieceType::Queen, Color::White),
        ("f6", PieceType::Knight, Color::Black),
        ("e1", PieceType::King, Color::White),
        ("e8", PieceType::King, Color::Black),
    ];

    let board = setup_position(&position);

    let queen_moves = board.get_moves(39); // h5
    assert!(queen_moves.test_bit(53)); // f7
    assert!(!queen_moves.test_bit(45)); // f6 is off the queen's lines
    assert_eq!(queen_moves.as_u64(), 0x90A0C070C0A09088);
}

#[test]
fn pinned_knight_keeps_its_moves() {
    let position = [
        ("e1", PieceType::King, Color::White),
        ("e2", PieceType::Knight, Color::White),
        ("e8", PieceType::Rook, Color::Black),
    ];

    let board = setup_position(&position);

    // c1, g1, c3, g3, d4, f4
    let knight_moves = board.get_moves(12); // e2
    assert_eq!(knight_moves.as_u64(), 0x28440044);
    assert_eq!(knight_moves.pop_count(), 6);
}

#[test]
fn pawn_before_the_last_rank_is_stopped_by_a_piece() {
    let position = [
        ("e7", PieceType::Pawn, Color::White),
        ("e1", PieceType::King, Color::White),
        ("e8", PieceType::King, Color::Black),
    ];

    let board = setup_position(&position);

    // The king on e8 stands in the pawn's way, and a pawn does not capture forwards
    let pawn_moves = board.get_moves(52); // e7
    assert_eq!(pawn_moves.pop_count(), 0);
}

#[test]
fn pawn_before_the_last_rank_advances_and_captures() {
    let position = [
        ("e7", PieceType::Pawn, Color::White),
        ("e1", PieceType::King, Color::White),
        ("d8", PieceType::King, Color::Black),
    ];

    let board = setup_position(&position);

    let pawn_moves = board.get_moves(52); // e7
    assert!(pawn_moves.test_bit(60)); // e8
    assert!(pawn_moves.test_bit(59)); // d8
    assert_eq!(pawn_moves.as_u64(), 0x1800000000000000);
}

#[test]
fn pawn_on_the_last_rank_has_no_moves() {
    let white = setup_position(&[("e8", PieceType::Pawn, Color::White)]);
    assert_eq!(white.get_moves(60).as_u64(), 0);

    let black = setup_position(&[("e1", PieceType::Pawn, Color::Black)]);
    assert_eq!(black.get_moves(4).as_u64(), 0);
}

#[test]
fn hemmed_in_rook_captures_its_neighbours() {
    let position = [
        ("a8", PieceType::Rook, Color::White),
        ("a7", PieceType::Pawn, Color::Black),
        ("b7", PieceType::Pawn, Color::Black),
        ("b8", PieceType::King, Color::Black),
    ];

    let board = setup_position(&position);

    let rook_moves = board.get_moves(56); // a8
    assert!(rook_moves.test_bit(48)); // a7
    assert!(rook_moves.test_bit(57)); // b8
    assert_eq!(rook_moves.pop_count(), 2);
}

#[test]
fn queen_and_rook_each_keep_to_their_lines() {
    let position = [
        ("d4", PieceType::Queen, Color::White),
        ("h4", PieceType::Rook, Color::White),
        ("d8", PieceType::King, Color::Black),
    ];

    let board = setup_position(&position);

    let queen_moves = board.get_moves(27); // d4
    let rook_moves = board.get_moves(31); // h4
    assert!(queen_moves.test_bit(59)); // d8
    assert!(!rook_moves.test_bit(59)); // d8 is neither on the h-file nor on the fourth rank
    assert_eq!(queen_moves.as_u64(), 0x88492A1C771C2A49);
    assert_eq!(rook_moves.as_u64(), 0x8080808070808080);
}

#[test]
fn blocked_pawns_still_capture() {
    let position = [
        ("d4", PieceType::Pawn, Color::White),
        ("d5", PieceType::Pawn, Color::Black),
        ("e4", PieceType::Pawn, Color::White),
        ("e5", PieceType::Pawn, Color::Black),
    ];

    let board = setup_position(&position);

    // No pawn can advance, each can capture the pawn diagonally in front of it
    assert_eq!(board.get_moves(27).as_u64(), 1 << 36); // d4 takes e5
    assert_eq!(board.get_moves(35).as_u64(), 1 << 28); // d5 takes e4
    assert_eq!(board.get_moves(28).as_u64(), 1 << 35); // e4 takes d5
    assert_eq!(board.get_moves(36).as_u64(), 1 << 27); // e5 takes d4
}

#[test]
fn pawns_in_a_chain_advance_and_capture() {
    let position = [
        ("d4", PieceType::Pawn, Color::White),
        ("e5", PieceType::Pawn, Color::White),
        ("f6", PieceType::Pawn, Color::White),
        ("c5", PieceType::Pawn, Color::Black),
        ("d6", PieceType::Pawn, Color::Black),
        ("e7", PieceType::Pawn, Color::Black),
    ];

    let board = setup_position(&position);

    assert_eq!(board.get_moves(36).as_u64(), 0x180000000000); // e5: e6, takes d6
    assert_eq!(board.get_moves(43).as_u64(), 0x1800000000); // d6: d5, takes e5
    assert_eq!(board.get_moves(27).as_u64(), 0xC00000000); // d4: d5, takes c5
    assert_eq!(board.get_moves(52).as_u64(), 0x300000000000); // e7: e6, takes f6
}
