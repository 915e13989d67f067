use checkbit::board::{Board, Color, PieceType};

#[test]
fn names_of_colors_and_pieces() {
    assert_eq!(Color::White.as_str(), "White");
    assert_eq!(Color::Black.as_str(), "Black");
    assert_eq!(PieceType::Pawn.as_str(), "Pawn");
    assert_eq!(PieceType::Knight.as_str(), "Knight");
    assert_eq!(PieceType::Bishop.as_str(), "Bishop");
    assert_eq!(PieceType::Rook.as_str(), "Rook");
    assert_eq!(PieceType::Queen.as_str(), "Queen");
    assert_eq!(PieceType::King.as_str(), "King");
}

#[test]
fn diagram_of_the_initial_position() {
    let expected = "r n b q k b n r\n\
                    p p p p p p p p\n\
                    . . . . . . . .\n\
                    . . . . . . . .\n\
                    . . . . . . . .\n\
                    . . . . . . . .\n\
                    P P P P P P P P\n\
                    R N B Q K B N R\n";
    assert_eq!(Board::initial().to_text(), expected);
}

#[test]
fn diagram_of_the_empty_board() {
    let text = Board::empty().to_text();
    assert_eq!(text.len(), 128);
    assert_eq!(text, ". . . . . . . .\n".repeat(8));
}

#[test]
fn diagram_after_moves() {
    let mut board = Board::initial();
    board.apply_move(12, 28).unwrap(); // e2-e4
    board.apply_move(57, 42).unwrap(); // Nb8-c6
    let expected = "r . b q k b n r\n\
                    p p p p p p p p\n\
                    . . n . . . . .\n\
                    . . . . . . . .\n\
                    . . . . P . . .\n\
                    . . . . . . . .\n\
                    P P P P . P P P\n\
                    R N B Q K B N R\n";
    assert_eq!(board.to_text(), expected);
}

#[test]
fn diagram_puts_a1_at_the_start_of_the_last_line() {
    let mut board = Board::empty();
    board.place_piece(PieceType::Queen, Color::Black, 0); // a1
    board.place_piece(PieceType::King, Color::White, 63); // h8
    let text = board.to_text();
    assert_eq!(text.lines().next(), Some(". . . . . . . K"));
    assert_eq!(text.lines().last(), Some("q . . . . . . ."));
}
