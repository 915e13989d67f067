//! The library's types as text: the names of colors and pieces, and the
//! board as a diagram of eight lines.

use vstd::prelude::*;
use vstd::string::StringExecFns;
use crate::board::{Board, Color, PieceType};

verus! {

/// The name of a color.
pub open spec fn color_name(color: Color) -> Seq<char> {
    match color {
        Color::White => "White"@,
        Color::Black => "Black"@,
    }
}

/// The name of a kind of piece.
pub open spec fn piece_name(piece_type: PieceType) -> Seq<char> {
    match piece_type {
        PieceType::Pawn => "Pawn"@,
        PieceType::Knight => "Knight"@,
        PieceType::Bishop => "Bishop"@,
        PieceType::Rook => "Rook"@,
        PieceType::Queen => "Queen"@,
        PieceType::King => "King"@,
    }
}

/// The character that stands for what a square holds: a capital letter for
/// a white piece, a small one for a black piece, a dot for an empty square.
pub open spec fn symbol(piece: Option<(PieceType, Color)>) -> char {
    match piece {
        Some((PieceType::Pawn, Color::White)) => 'P',
        Some((PieceType::Knight, Color::White)) => 'N',
        Some((PieceType::Bishop, Color::White)) => 'B',
        Some((PieceType::Rook, Color::White)) => 'R',
        Some((PieceType::Queen, Color::White)) => 'Q',
        Some((PieceType::King, Color::White)) => 'K',
        Some((PieceType::Pawn, Color::Black)) => 'p',
        Some((PieceType::Knight, Color::Black)) => 'n',
        Some((PieceType::Bishop, Color::Black)) => 'b',
        Some((PieceType::Rook, Color::Black)) => 'r',
        Some((PieceType::Queen, Color::Black)) => 'q',
        Some((PieceType::King, Color::Black)) => 'k',
        None => '.',
    }
}

impl Color {
    /// The name of the color, "White" or "Black".
    pub fn as_str(&self) -> (r: &'static str)
        ensures
            r@ == color_name(*self),
    {
        match self {
            Color::White => "White",
            Color::Black => "Black",
        }
    }
}

impl PieceType {
    /// The name of the kind of piece, such as "Knight".
    pub fn as_str(&self) -> (r: &'static str)
        ensures
            r@ == piece_name(*self),
    {
        match self {
            PieceType::Pawn => "Pawn",
            PieceType::Knight => "Knight",
            PieceType::Bishop => "Bishop",
            PieceType::Rook => "Rook",
            PieceType::Queen => "Queen",
            PieceType::King => "King",
        }
    }
}

impl Board {
    /// The character at position `i` of the diagram. Each of the eight
    /// lines holds the eight squares of a rank, from file A to file H with a
    /// space between neighbours, and ends with a line feed. The first line is
    /// rank 8.
    pub open spec fn diagram_char(&self, i: int) -> char {
        let line = i / 16;
        let column = i % 16;
        if column == 15 {
            '\n'
        } else if column % 2 == 1 {
            ' '
        } else {
            symbol(self.piece_at((7 - line) * 8 + column / 2))
        }
    }

    /// The diagram of the board: 128 characters.
    pub open spec fn diagram(&self) -> Seq<char> {
        Seq::new(128, |i: int| self.diagram_char(i))
    }

    /// The text that stands for a square in the diagram.
    fn symbol_at(&self, square: u8) -> (r: &'static str)
        requires
            square < 64,
        ensures
            r@ == seq![symbol(self.piece_at(square as int))],
    {
        proof {
            reveal_strlit("P");
            reveal_strlit("N");
            reveal_strlit("B");
            reveal_strlit("R");
            reveal_strlit("Q");
            reveal_strlit("K");
            reveal_strlit("p");
            reveal_strlit("n");
            reveal_strlit("b");
            reveal_strlit("r");
            reveal_strlit("q");
            reveal_strlit("k");
            reveal_strlit(".");
        }
        let r = if let Some((piece, color)) = self.get_piece_at(square) {
            match (piece, color) {
                (PieceType::Pawn, Color::White) => "P",
                (PieceType::Knight, Color::White) => "N",
                (PieceType::Bishop, Color::White) => "B",
                (PieceType::Rook, Color::White) => "R",
                (PieceType::Queen, Color::White) => "Q",
                (PieceType::King, Color::White) => "K",
                (PieceType::Pawn, Color::Black) => "p",
                (PieceType::Knight, Color::Black) => "n",
                (PieceType::Bishop, Color::Black) => "b",
                (PieceType::Rook, Color::Black) => "r",
                (PieceType::Queen, Color::Black) => "q",
                (PieceType::King, Color::Black) => "k",
            }
        } else {
            "."
        };
        assert(r@ =~= seq![symbol(self.piece_at(square as int))]);
        r
    }

    /// Formats the board in an 8x8 grid with rank 8 at the top.
    pub fn to_text(&self) -> (r: String)
        ensures
            r@ == self.diagram(),
    {
        let mut text = String::new();
        let mut line: u8 = 0;
        while line < 8
            invariant
                line <= 8,
                text@.len() == 16 * line,
                forall|i: int| 0 <= i < text@.len() ==> text@[i] == self.diagram_char(i),
            decreases 8 - line,
        {
            let rank = 7 - line;
            let mut file: u8 = 0;
            while file < 8
                invariant
                    line < 8,
                    rank == 7 - line,
                    file <= 8,
                    text@.len() == 16 * line + 2 * file,
                    forall|i: int| 0 <= i < text@.len() ==> text@[i] == self.diagram_char(i),
                decreases 8 - file,
            {
                let square = rank * 8 + file;
                let symbol = self.symbol_at(square);
                text.append(symbol);
                if file < 7 {
                    proof {
                        reveal_strlit(" ");
                    }
                    text.append(" ");
                } else {
                    proof {
                        reveal_strlit("\n");
                    }
                    text.append("\n");
                }
                file += 1;
            }
            line += 1;
        }
        assert(text@ =~= self.diagram());
        text
    }
}

} // verus!
