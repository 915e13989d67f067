//! Masks for files, ranks and the starting position, and the attack tables.
//!
//! The tables are written out entry by entry. `lemma_knight_table`,
//! `lemma_king_table` and `lemma_ray_tables` prove what each entry holds.
//! The `generate_` functions compute the same tables square by square; their
//! contracts say that what they return is the table constant.

use vstd::prelude::*;
use crate::bits::{
    has_bit,
    lemma_or,
    lemma_same_squares,
    lemma_single,
    lemma_zero_and_ones,
    squares_of,
};
use crate::geometry::{
    east_of,
    file_of,
    king_step,
    king_targets,
    knight_step,
    knight_targets,
    north_of,
    on_board,
    rank_of,
    south_of,
    west_of,
};

verus! {

// File masks (vertical strips)
pub const FILE_A: u64 = 0x0101010101010101;

pub const FILE_B: u64 = 0x0202020202020202;

pub const FILE_C: u64 = 0x0404040404040404;

pub const FILE_D: u64 = 0x0808080808080808;

pub const FILE_E: u64 = 0x1010101010101010;

pub const FILE_F: u64 = 0x2020202020202020;

pub const FILE_G: u64 = 0x4040404040404040;

pub const FILE_H: u64 = 0x8080808080808080;

// Rank masks (horizontal strips)
pub const RANK_1: u64 = 0x00000000000000FF;

pub const RANK_2: u64 = 0x000000000000FF00;

pub const RANK_3: u64 = 0x0000000000FF0000;

pub const RANK_4: u64 = 0x00000000FF000000;

pub const RANK_5: u64 = 0x000000FF00000000;

pub const RANK_6: u64 = 0x0000FF0000000000;

pub const RANK_7: u64 = 0x00FF000000000000;

pub const RANK_8: u64 = 0xFF00000000000000;

// Special square combinations
pub const CENTER_SQUARES: u64 = 0x0000001818000000;  // e4, d4, e5, d5

pub const EXTENDED_CENTER: u64 = 0x00003C3C3C3C0000;  // 16 central squares

// Initial piece positions
pub const WHITE_PAWNS_INIT: u64 = RANK_2;

pub const BLACK_PAWNS_INIT: u64 = RANK_7;

pub const WHITE_KNIGHTS_INIT: u64 = 0x0000000000000042;

pub const BLACK_KNIGHTS_INIT: u64 = 0x4200000000000000;

pub const WHITE_BISHOPS_INIT: u64 = 0x0000000000000024;

pub const BLACK_BISHOPS_INIT: u64 = 0x2400000000000000;

pub const WHITE_ROOKS_INIT: u64 = 0x0000000000000081;

pub const BLACK_ROOKS_INIT: u64 = 0x8100000000000000;

pub const WHITE_QUEENS_INIT: u64 = 0x0000000000000008;

pub const BLACK_QUEENS_INIT: u64 = 0x0800000000000000;

pub const WHITE_KING_INIT: u64 = 0x0000000000000010;

pub const BLACK_KING_INIT: u64 = 0x1000000000000000;

// Castling relevant squares
pub const KINGSIDE_SQUARES: u64 = 0x0000000000000060;  // f1, g1 for white

pub const QUEENSIDE_SQUARES: u64 = 0x000000000000000E;  // b1, c1, d1 for white

// Move pattern masks
/// For each square, the squares a knight standing on it attacks.
pub const KNIGHT_MOVES: [u64; 64] = [
    0x0000000000020400, 0x0000000000050800, 0x00000000000A1100, 0x0000000000142200,
    0x0000000000284400, 0x0000000000508800, 0x0000000000A01000, 0x0000000000402000,
    0x0000000002040004, 0x0000000005080008, 0x000000000A110011, 0x0000000014220022,
    0x0000000028440044, 0x0000000050880088, 0x00000000A0100010, 0x0000000040200020,
    0x0000000204000402, 0x0000000508000805, 0x0000000A1100110A, 0x0000001422002214,
    0x0000002844004428, 0x0000005088008850, 0x000000A0100010A0, 0x0000004020002040,
    0x0000020400040200, 0x0000050800080500, 0x00000A1100110A00, 0x0000142200221400,
    0x0000284400442800, 0x0000508800885000, 0x0000A0100010A000, 0x0000402000204000,
    0x0002040004020000, 0x0005080008050000, 0x000A1100110A0000, 0x0014220022140000,
    0x0028440044280000, 0x0050880088500000, 0x00A0100010A00000, 0x0040200020400000,
    0x0204000402000000, 0x0508000805000000, 0x0A1100110A000000, 0x1422002214000000,
    0x2844004428000000, 0x5088008850000000, 0xA0100010A0000000, 0x4020002040000000,
    0x0400040200000000, 0x0800080500000000, 0x1100110A00000000, 0x2200221400000000,
    0x4400442800000000, 0x8800885000000000, 0x100010A000000000, 0x2000204000000000,
    0x0004020000000000, 0x0008050000000000, 0x00110A0000000000, 0x0022140000000000,
    0x0044280000000000, 0x0088500000000000, 0x0010A00000000000, 0x0020400000000000,
];

/// For each square, the squares a king standing on it attacks.
pub const KING_MOVES: [u64; 64] = [
    0x0000000000000302, 0x0000000000000705, 0x0000000000000E0A, 0x0000000000001C14,
    0x0000000000003828, 0x0000000000007050, 0x000000000000E0A0, 0x000000000000C040,
    0x0000000000030203, 0x0000000000070507, 0x00000000000E0A0E, 0x00000000001C141C,
    0x0000000000382838, 0x0000000000705070, 0x0000000000E0A0E0, 0x0000000000C040C0,
    0x0000000003020300, 0x0000000007050700, 0x000000000E0A0E00, 0x000000001C141C00,
    0x0000000038283800, 0x0000000070507000, 0x00000000E0A0E000, 0x00000000C040C000,
    0x0000000302030000, 0x0000000705070000, 0x0000000E0A0E0000, 0x0000001C141C0000,
    0x0000003828380000, 0x0000007050700000, 0x000000E0A0E00000, 0x000000C040C00000,
    0x0000030203000000, 0x0000070507000000, 0x00000E0A0E000000, 0x00001C141C000000,
    0x0000382838000000, 0x0000705070000000, 0x0000E0A0E0000000, 0x0000C040C0000000,
    0x0003020300000000, 0x0007050700000000, 0x000E0A0E00000000, 0x001C141C00000000,
    0x0038283800000000, 0x0070507000000000, 0x00E0A0E000000000, 0x00C040C000000000,
    0x0302030000000000, 0x0705070000000000, 0x0E0A0E0000000000, 0x1C141C0000000000,
    0x3828380000000000, 0x7050700000000000, 0xE0A0E00000000000, 0xC040C00000000000,
    0x0203000000000000, 0x0507000000000000, 0x0A0E000000000000, 0x141C000000000000,
    0x2838000000000000, 0x5070000000000000, 0xA0E0000000000000, 0x40C0000000000000,
];

/// For each square, the squares above it on its file, up to the edge.
pub const NORTH_RAY: [u64; 64] = [
    0x0101010101010100, 0x0202020202020200, 0x0404040404040400, 0x0808080808080800,
    0x1010101010101000, 0x2020202020202000, 0x4040404040404000, 0x8080808080808000,
    0x0101010101010000, 0x0202020202020000, 0x0404040404040000, 0x0808080808080000,
    0x1010101010100000, 0x2020202020200000, 0x4040404040400000, 0x8080808080800000,
    0x0101010101000000, 0x0202020202000000, 0x0404040404000000, 0x0808080808000000,
    0x1010101010000000, 0x2020202020000000, 0x4040404040000000, 0x8080808080000000,
    0x0101010100000000, 0x0202020200000000, 0x0404040400000000, 0x0808080800000000,
    0x1010101000000000, 0x2020202000000000, 0x4040404000000000, 0x8080808000000000,
    0x0101010000000000, 0x0202020000000000, 0x0404040000000000, 0x0808080000000000,
    0x1010100000000000, 0x2020200000000000, 0x4040400000000000, 0x8080800000000000,
    0x0101000000000000, 0x0202000000000000, 0x0404000000000000, 0x0808000000000000,
    0x1010000000000000, 0x2020000000000000, 0x4040000000000000, 0x8080000000000000,
    0x0100000000000000, 0x0200000000000000, 0x0400000000000000, 0x0800000000000000,
    0x1000000000000000, 0x2000000000000000, 0x4000000000000000, 0x8000000000000000,
    0x0000000000000000, 0x0000000000000000, 0x0000000000000000, 0x0000000000000000,
    0x0000000000000000, 0x0000000000000000, 0x0000000000000000, 0x0000000000000000,
];

/// For each square, the squares below it on its file, down to the edge.
pub const SOUTH_RAY: [u64; 64] = [
    0x0000000000000000, 0x0000000000000000, 0x0000000000000000, 0x0000000000000000,
    0x0000000000000000, 0x0000000000000000, 0x0000000000000000, 0x0000000000000000,
    0x0000000000000001, 0x0000000000000002, 0x0000000000000004, 0x0000000000000008,
    0x0000000000000010, 0x0000000000000020, 0x0000000000000040, 0x0000000000000080,
    0x0000000000000101, 0x0000000000000202, 0x0000000000000404, 0x0000000000000808,
    0x0000000000001010, 0x0000000000002020, 0x0000000000004040, 0x0000000000008080,
    0x0000000000010101, 0x0000000000020202, 0x0000000000040404, 0x0000000000080808,
    0x0000000000101010, 0x0000000000202020, 0x0000000000404040, 0x0000000000808080,
    0x0000000001010101, 0x0000000002020202, 0x0000000004040404, 0x0000000008080808,
    0x0000000010101010, 0x0000000020202020, 0x0000000040404040, 0x0000000080808080,
    0x0000000101010101, 0x0000000202020202, 0x0000000404040404, 0x0000000808080808,
    0x0000001010101010, 0x0000002020202020, 0x0000004040404040, 0x0000008080808080,
    0x0000010101010101, 0x0000020202020202, 0x0000040404040404, 0x0000080808080808,
    0x0000101010101010, 0x0000202020202020, 0x0000404040404040, 0x0000808080808080,
    0x0001010101010101, 0x0002020202020202, 0x0004040404040404, 0x0008080808080808,
    0x0010101010101010, 0x0020202020202020, 0x0040404040404040, 0x0080808080808080,
];

/// For each square, the squares right of it on its rank, up to the edge.
pub const EAST_RAY: [u64; 64] = [
    0x00000000000000FE, 0x00000000000000FC, 0x00000000000000F8, 0x00000000000000F0,
    0x00000000000000E0, 0x00000000000000C0, 0x0000000000000080, 0x0000000000000000,
    0x000000000000FE00, 0x000000000000FC00, 0x000000000000F800, 0x000000000000F000,
    0x000000000000E000, 0x000000000000C000, 0x0000000000008000, 0x0000000000000000,
    0x0000000000FE0000, 0x0000000000FC0000, 0x0000000000F80000, 0x0000000000F00000,
    0x0000000000E00000, 0x0000000000C00000, 0x0000000000800000, 0x0000000000000000,
    0x00000000FE000000, 0x00000000FC000000, 0x00000000F8000000, 0x00000000F0000000,
    0x00000000E0000000, 0x00000000C0000000, 0x0000000080000000, 0x0000000000000000,
    0x000000FE00000000, 0x000000FC00000000, 0x000000F800000000, 0x000000F000000000,
    0x000000E000000000, 0x000000C000000000, 0x0000008000000000, 0x0000000000000000,
    0x0000FE0000000000, 0x0000FC0000000000, 0x0000F80000000000, 0x0000F00000000000,
    0x0000E00000000000, 0x0000C00000000000, 0x0000800000000000, 0x0000000000000000,
    0x00FE000000000000, 0x00FC000000000000, 0x00F8000000000000, 0x00F0000000000000,
    0x00E0000000000000, 0x00C0000000000000, 0x0080000000000000, 0x0000000000000000,
    0xFE00000000000000, 0xFC00000000000000, 0xF800000000000000, 0xF000000000000000,
    0xE000000000000000, 0xC000000000000000, 0x8000000000000000, 0x0000000000000000,
];

/// For each square, the squares left of it on its rank, down to the edge.
pub const WEST_RAY: [u64; 64] = [
    0x0000000000000000, 0x0000000000000001, 0x0000000000000003, 0x0000000000000007,
    0x000000000000000F, 0x000000000000001F, 0x000000000000003F, 0x000000000000007F,
    0x0000000000000000, 0x0000000000000100, 0x0000000000000300, 0x0000000000000700,
    0x0000000000000F00, 0x0000000000001F00, 0x0000000000003F00, 0x0000000000007F00,
    0x0000000000000000, 0x0000000000010000, 0x0000000000030000, 0x0000000000070000,
    0x00000000000F0000, 0x00000000001F0000, 0x00000000003F0000, 0x00000000007F0000,
    0x0000000000000000, 0x0000000001000000, 0x0000000003000000, 0x0000000007000000,
    0x000000000F000000, 0x000000001F000000, 0x000000003F000000, 0x000000007F000000,
    0x0000000000000000, 0x0000000100000000, 0x0000000300000000, 0x0000000700000000,
    0x0000000F00000000, 0x0000001F00000000, 0x0000003F00000000, 0x0000007F00000000,
    0x0000000000000000, 0x0000010000000000, 0x0000030000000000, 0x0000070000000000,
    0x00000F0000000000, 0x00001F0000000000, 0x00003F0000000000, 0x00007F0000000000,
    0x0000000000000000, 0x0001000000000000, 0x0003000000000000, 0x0007000000000000,
    0x000F000000000000, 0x001F000000000000, 0x003F000000000000, 0x007F000000000000,
    0x0000000000000000, 0x0100000000000000, 0x0300000000000000, 0x0700000000000000,
    0x0F00000000000000, 0x1F00000000000000, 0x3F00000000000000, 0x7F00000000000000,
];

/// The mask of file `file`, counted from 0 for file A.
pub open spec fn file_mask(file: int) -> u64 {
    if file == 0 {
        FILE_A
    } else if file == 1 {
        FILE_B
    } else if file == 2 {
        FILE_C
    } else if file == 3 {
        FILE_D
    } else if file == 4 {
        FILE_E
    } else if file == 5 {
        FILE_F
    } else if file == 6 {
        FILE_G
    } else {
        FILE_H
    }
}

/// The mask of rank `rank`, counted from 0 for rank 1.
pub open spec fn rank_mask(rank: int) -> u64 {
    if rank == 0 {
        RANK_1
    } else if rank == 1 {
        RANK_2
    } else if rank == 2 {
        RANK_3
    } else if rank == 3 {
        RANK_4
    } else if rank == 4 {
        RANK_5
    } else if rank == 5 {
        RANK_6
    } else if rank == 6 {
        RANK_7
    } else {
        RANK_8
    }
}

proof fn masks_at(s: u64)
    by (bit_vector)
    requires
        s < 64,
    ensures
        ((FILE_A >> s) & 1 == 1) == (s % 8 == 0),
        ((FILE_B >> s) & 1 == 1) == (s % 8 == 1),
        ((FILE_C >> s) & 1 == 1) == (s % 8 == 2),
        ((FILE_D >> s) & 1 == 1) == (s % 8 == 3),
        ((FILE_E >> s) & 1 == 1) == (s % 8 == 4),
        ((FILE_F >> s) & 1 == 1) == (s % 8 == 5),
        ((FILE_G >> s) & 1 == 1) == (s % 8 == 6),
        ((FILE_H >> s) & 1 == 1) == (s % 8 == 7),
        ((RANK_1 >> s) & 1 == 1) == (s / 8 == 0),
        ((RANK_2 >> s) & 1 == 1) == (s / 8 == 1),
        ((RANK_3 >> s) & 1 == 1) == (s / 8 == 2),
        ((RANK_4 >> s) & 1 == 1) == (s / 8 == 3),
        ((RANK_5 >> s) & 1 == 1) == (s / 8 == 4),
        ((RANK_6 >> s) & 1 == 1) == (s / 8 == 5),
        ((RANK_7 >> s) & 1 == 1) == (s / 8 == 6),
        ((RANK_8 >> s) & 1 == 1) == (s / 8 == 7),
{
}

/// Each file mask holds the eight squares of its file, each rank mask the
/// eight squares of its rank.
pub proof fn lemma_masks(line: int)
    requires
        0 <= line < 8,
    ensures
        squares_of(file_mask(line)) == Set::new(|sq: int| on_board(sq) && file_of(sq) == line),
        squares_of(rank_mask(line)) == Set::new(|sq: int| on_board(sq) && rank_of(sq) == line),
{
    assert forall|sq: int|
        has_bit(file_mask(line), sq) == (on_board(sq) && file_of(sq) == line) && has_bit(
            rank_mask(line),
            sq,
        ) == (on_board(sq) && rank_of(sq) == line) by {
        if on_board(sq) {
            masks_at(sq as u64);
        }
    }
    assert(squares_of(file_mask(line)) =~= Set::new(
        |sq: int| on_board(sq) && file_of(sq) == line,
    ));
    assert(squares_of(rank_mask(line)) =~= Set::new(
        |sq: int| on_board(sq) && rank_of(sq) == line,
    ));
}

/// The knight table's entry for `sq` as one expression: the bit of `sq`
/// moved to each of the eight jumps, without those that crossed an edge.
spec fn knight_word(sq: u64) -> u64 {
    let b = 1u64 << sq;
    ((b << 17) & !FILE_A) | ((b << 10) & !(FILE_A | FILE_B)) | ((b >> 6) & !(FILE_A | FILE_B)) | ((b
        >> 15) & !FILE_A) | ((b << 15) & !FILE_H) | ((b << 6) & !(FILE_G | FILE_H)) | ((b >> 10) & !(
    FILE_G | FILE_H)) | ((b >> 17) & !FILE_H)
}

/// The king table's entry for `sq` as one expression.
spec fn king_word(sq: u64) -> u64 {
    let b = 1u64 << sq;
    let east = (b << 1) & !FILE_A;
    let west = (b >> 1) & !FILE_H;
    let row = b | east | west;
    east | west | (row << 8) | (row >> 8)
}

/// The entries of the four ray tables for `sq`, each as one expression.
spec fn north_word(sq: u64) -> u64 {
    0x0101010101010100u64 << sq
}

spec fn south_word(sq: u64) -> u64 {
    0x0080808080808080u64 >> ((63 - sq) as u64)
}

spec fn east_word(sq: u64) -> u64 {
    (0xFEu64 << sq) & (0xFFu64 << (sq & 56))
}

spec fn west_word(sq: u64) -> u64 {
    (((1u64 << sq) - 1) as u64) & (0xFFu64 << (sq & 56))
}

/// The first `n` entries of each table are what the expressions above give.
spec fn tables_agree_below(n: u64) -> bool
    decreases n,
{
    n == 0 || {
        let sq = (n - 1) as u64;
        &&& KNIGHT_MOVES[sq as int] == knight_word(sq)
        &&& KING_MOVES[sq as int] == king_word(sq)
        &&& NORTH_RAY[sq as int] == north_word(sq)
        &&& SOUTH_RAY[sq as int] == south_word(sq)
        &&& EAST_RAY[sq as int] == east_word(sq)
        &&& WEST_RAY[sq as int] == west_word(sq)
        &&& tables_agree_below(sq)
    }
}

proof fn lemma_agree_below(n: u64, sq: u64)
    requires
        tables_agree_below(n),
        sq < n,
    ensures
        KNIGHT_MOVES[sq as int] == knight_word(sq),
        KING_MOVES[sq as int] == king_word(sq),
        NORTH_RAY[sq as int] == north_word(sq),
        SOUTH_RAY[sq as int] == south_word(sq),
        EAST_RAY[sq as int] == east_word(sq),
        WEST_RAY[sq as int] == west_word(sq),
    decreases n,
{
    if sq + 1 < n {
        lemma_agree_below((n - 1) as u64, sq);
    }
}

proof fn lemma_tables_agree(sq: u64)
    requires
        sq < 64,
    ensures
        KNIGHT_MOVES[sq as int] == knight_word(sq),
        KING_MOVES[sq as int] == king_word(sq),
        NORTH_RAY[sq as int] == north_word(sq),
        SOUTH_RAY[sq as int] == south_word(sq),
        EAST_RAY[sq as int] == east_word(sq),
        WEST_RAY[sq as int] == west_word(sq),
{
    assert(tables_agree_below(64)) by (bit_vector);
    lemma_agree_below(64, sq);
}

proof fn words_at(sq: u64, to: u64)
    by (bit_vector)
    requires
        sq < 64,
        to < 64,
    ensures
        ((knight_word(sq) >> to) & 1 == 1) == ({
            let (rs, fs, rt, ft) = (sq / 8, sq % 8, to / 8, to % 8);
            ((rt == rs + 1 || rs == rt + 1) && (ft == fs + 2 || fs == ft + 2)) || ((rt == rs + 2
                || rs == rt + 2) && (ft == fs + 1 || fs == ft + 1))
        }),
        ((king_word(sq) >> to) & 1 == 1) == ({
            let (rs, fs, rt, ft) = (sq / 8, sq % 8, to / 8, to % 8);
            to != sq && (rt == rs || rt == rs + 1 || rs == rt + 1) && (ft == fs || ft == fs + 1
                || fs == ft + 1)
        }),
        ((north_word(sq) >> to) & 1 == 1) == (to % 8 == sq % 8 && to / 8 > sq / 8),
        ((south_word(sq) >> to) & 1 == 1) == (to % 8 == sq % 8 && to / 8 < sq / 8),
        ((east_word(sq) >> to) & 1 == 1) == (to / 8 == sq / 8 && to % 8 > sq % 8),
        ((west_word(sq) >> to) & 1 == 1) == (to / 8 == sq / 8 && to % 8 < sq % 8),
{
}

/// The knight table holds, for each square, the knight's jumps from it.
pub proof fn lemma_knight_table(sq: int)
    requires
        on_board(sq),
    ensures
        squares_of(KNIGHT_MOVES[sq]) == knight_targets(sq),
{
    lemma_tables_agree(sq as u64);
    assert forall|to: int| has_bit(KNIGHT_MOVES[sq], to) == knight_step(sq, to) by {
        if on_board(to) {
            words_at(sq as u64, to as u64);
        }
    }
    assert(squares_of(KNIGHT_MOVES[sq]) =~= knight_targets(sq));
}

/// The king table holds, for each square, its neighbours.
pub proof fn lemma_king_table(sq: int)
    requires
        on_board(sq),
    ensures
        squares_of(KING_MOVES[sq]) == king_targets(sq),
{
    lemma_tables_agree(sq as u64);
    assert forall|to: int| has_bit(KING_MOVES[sq], to) == king_step(sq, to) by {
        if on_board(to) {
            words_at(sq as u64, to as u64);
        }
    }
    assert(squares_of(KING_MOVES[sq]) =~= king_targets(sq));
}

/// Each ray table holds, for each square, the squares from it to the edge
/// of the board in its direction, the edge square included.
pub proof fn lemma_ray_tables(sq: int)
    requires
        on_board(sq),
    ensures
        squares_of(NORTH_RAY[sq]) == Set::new(|to: int| north_of(sq, to)),
        squares_of(SOUTH_RAY[sq]) == Set::new(|to: int| south_of(sq, to)),
        squares_of(EAST_RAY[sq]) == Set::new(|to: int| east_of(sq, to)),
        squares_of(WEST_RAY[sq]) == Set::new(|to: int| west_of(sq, to)),
{
    lemma_tables_agree(sq as u64);
    assert forall|to: int|
        has_bit(NORTH_RAY[sq], to) == north_of(sq, to) && has_bit(SOUTH_RAY[sq], to) == south_of(
            sq,
            to,
        ) && has_bit(EAST_RAY[sq], to) == east_of(sq, to) && has_bit(WEST_RAY[sq], to) == west_of(
            sq,
            to,
        ) by {
        if on_board(to) {
            words_at(sq as u64, to as u64);
        }
    }
    assert(squares_of(NORTH_RAY[sq]) =~= Set::new(|to: int| north_of(sq, to)));
    assert(squares_of(SOUTH_RAY[sq]) =~= Set::new(|to: int| south_of(sq, to)));
    assert(squares_of(EAST_RAY[sq]) =~= Set::new(|to: int| east_of(sq, to)));
    assert(squares_of(WEST_RAY[sq]) =~= Set::new(|to: int| west_of(sq, to)));
}

/// The squares that lie from `from` in the direction of `delta`, the
/// difference between the indices of neighbouring squares on the ray: `8`
/// for north, `-8` for south, `1` for east and `-1` for west.
pub open spec fn along(from: int, to: int, delta: int) -> bool {
    if delta == 8 {
        north_of(from, to)
    } else if delta == -8 {
        south_of(from, to)
    } else if delta == 1 {
        east_of(from, to)
    } else {
        delta == -1 && west_of(from, to)
    }
}

/// The ray table for the direction of `delta`.
pub open spec fn ray_table(delta: int) -> [u64; 64] {
    if delta == 8 {
        NORTH_RAY
    } else if delta == -8 {
        SOUTH_RAY
    } else if delta == 1 {
        EAST_RAY
    } else {
        WEST_RAY
    }
}

/// `bits` with the bit of `square` set.
fn with_bit(bits: u64, square: u8) -> (r: u64)
    requires
        square < 64,
    ensures
        squares_of(r) == squares_of(bits).insert(square as int),
{
    proof {
        lemma_single(square as u64);
        lemma_or(bits, 1u64 << square);
        assert(squares_of(bits | (1u64 << square)) =~= squares_of(bits).insert(square as int));
    }
    bits | (1u64 << square)
}

/// The knight's jumps from `sq`, each with the condition under which it
/// stays on the board.
spec fn knight_jumps(sq: int) -> Set<int> {
    let (rank, file) = (rank_of(sq), file_of(sq));
    Set::new(
        |to: int|
            {
                ||| (rank < 6 && file < 7 && to == sq + 17)
                ||| (rank < 7 && file < 6 && to == sq + 10)
                ||| (rank > 0 && file < 6 && to == sq - 6)
                ||| (rank > 1 && file < 7 && to == sq - 15)
                ||| (rank > 1 && file > 0 && to == sq - 17)
                ||| (rank > 0 && file > 1 && to == sq - 10)
                ||| (rank < 7 && file > 1 && to == sq + 6)
                ||| (rank < 6 && file > 0 && to == sq + 15)
            },
    )
}

proof fn lemma_knight_jumps(sq: int)
    requires
        on_board(sq),
    ensures
        knight_jumps(sq) == knight_targets(sq),
{
    assert forall|to: int| knight_jumps(sq).contains(to) == knight_step(sq, to) by {
        assert(sq == 8 * rank_of(sq) + file_of(sq));
        assert(to == 8 * rank_of(to) + file_of(to));
    }
    assert(knight_jumps(sq) =~= knight_targets(sq));
}

/// The king's steps from `sq`, each with the condition under which it stays
/// on the board.
spec fn king_steps(sq: int) -> Set<int> {
    let (rank, file) = (rank_of(sq), file_of(sq));
    Set::new(
        |to: int|
            {
                ||| (file < 7 && to == sq + 1)
                ||| (file > 0 && to == sq - 1)
                ||| (rank < 7 && to == sq + 8)
                ||| (rank > 0 && to == sq - 8)
                ||| (rank < 7 && file < 7 && to == sq + 9)
                ||| (rank < 7 && file > 0 && to == sq + 7)
                ||| (rank > 0 && file < 7 && to == sq - 7)
                ||| (rank > 0 && file > 0 && to == sq - 9)
            },
    )
}

proof fn lemma_king_steps(sq: int)
    requires
        on_board(sq),
    ensures
        king_steps(sq) == king_targets(sq),
{
    assert forall|to: int| king_steps(sq).contains(to) == king_step(sq, to) by {
        assert(sq == 8 * rank_of(sq) + file_of(sq));
        assert(to == 8 * rank_of(to) + file_of(to));
    }
    assert(king_steps(sq) =~= king_targets(sq));
}

/// Computes the knight table: for every square the knight's jumps from it
/// that stay on the board.
pub fn generate_knight_moves() -> (moves: [u64; 64])
    ensures
        forall|sq: int| on_board(sq) ==> squares_of(#[trigger] moves[sq]) == knight_targets(sq),
        moves@ == KNIGHT_MOVES@,
{
    let mut moves = [0u64;64];
    let mut square: u8 = 0;

    while square < 64
        invariant
            square <= 64,
            forall|sq: int|
                0 <= sq < square ==> squares_of(#[trigger] moves[sq]) == knight_targets(sq),
        decreases 64 - square,
    {
        let mut bb = 0u64;
        let rank = square / 8;
        let file = square % 8;
        proof {
            lemma_zero_and_ones();
        }

        // All eight possible knight moves
        if rank < 6 && file < 7 {
            bb = with_bit(bb, square + 17);
        }  // up 2 right 1
        if rank < 7 && file < 6 {
            bb = with_bit(bb, square + 10);
        }  // up 1 right 2
        if rank > 0 && file < 6 {
            bb = with_bit(bb, square - 6);
        }  // down 1 right 2
        if rank > 1 && file < 7 {
            bb = with_bit(bb, square - 15);
        }  // down 2 right 1
        if rank > 1 && file > 0 {
            bb = with_bit(bb, square - 17);
        }  // down 2 left 1
        if rank > 0 && file > 1 {
            bb = with_bit(bb, square - 10);
        }  // down 1 left 2
        if rank < 7 && file > 1 {
            bb = with_bit(bb, square + 6);
        }  // up 1 left 2
        if rank < 6 && file > 0 {
            bb = with_bit(bb, square + 15);
        }  // up 2 left 1

        proof {
            lemma_knight_jumps(square as int);
            assert(squares_of(bb) =~= knight_jumps(square as int));
        }
        moves[square as usize] = bb;
        square += 1;
    }
    proof {
        assert forall|sq: int| 0 <= sq < 64 implies #[trigger] moves[sq] == KNIGHT_MOVES[sq] by {
            lemma_knight_table(sq);
            lemma_same_squares(moves[sq], KNIGHT_MOVES[sq]);
        }
        assert(moves@ =~= KNIGHT_MOVES@);
    }
    moves
}

/// `to` is no further from the origin of a ray in the direction of `delta`
/// than `current` is.
spec fn within(to: int, current: int, delta: int) -> bool {
    if delta > 0 {
        to <= current
    } else {
        to >= current
    }
}

/// `current` is the last square in the direction of `delta`.
spec fn at_edge(current: int, delta: int) -> bool {
    ||| (delta == 8 && rank_of(current) == 7)
    ||| (delta == -8 && rank_of(current) == 0)
    ||| (delta == 1 && file_of(current) == 7)
    ||| (delta == -1 && file_of(current) == 0)
}

/// One more step along a ray adds exactly the square stepped to.
proof fn lemma_ray_grows(square: int, current: int, delta: int)
    requires
        on_board(square),
        on_board(current),
        delta == 8 || delta == -8 || delta == 1 || delta == -1,
        current == square || along(square, current, delta),
        !at_edge(current, delta),
    ensures
        on_board(current + delta),
        along(square, current + delta, delta),
        forall|to: int|
            (along(square, to, delta) && within(to, current + delta, delta)) <==> ((along(
                square,
                to,
                delta,
            ) && within(to, current, delta)) || to == current + delta),
{
    let next = current + delta;
    assert(rank_of(next) == rank_of(current) + (if delta == 8 {
        1int
    } else if delta == -8 {
        -1int
    } else {
        0int
    }));
    assert(file_of(next) == file_of(current) + (if delta == 1 {
        1int
    } else if delta == -1 {
        -1int
    } else {
        0int
    }));
    assert forall|to: int|
        (along(square, to, delta) && within(to, next, delta)) <==> ((along(square, to, delta)
            && within(to, current, delta)) || to == next) by {
        if along(square, to, delta) {
            assert(to == 8 * rank_of(to) + file_of(to));
            assert(current == 8 * rank_of(current) + file_of(current));
            assert(next == 8 * rank_of(next) + file_of(next));
        }
    }
}

/// At the edge of the board nothing lies further along the ray.
proof fn lemma_ray_ends(square: int, current: int, delta: int)
    requires
        on_board(square),
        on_board(current),
        delta == 8 || delta == -8 || delta == 1 || delta == -1,
        current == square || along(square, current, delta),
        at_edge(current, delta),
    ensures
        forall|to: int| along(square, to, delta) ==> within(to, current, delta),
{
    assert forall|to: int| along(square, to, delta) implies within(to, current, delta) by {
        assert(to == 8 * rank_of(to) + file_of(to));
        assert(current == 8 * rank_of(current) + file_of(current));
    }
}

/// Computes the ray table for one direction: for every square the squares
/// from it to the edge of the board. `delta` names the direction as `along`
/// does.
pub fn generate_ray_moves(delta: i8) -> (moves: [u64; 64])
    requires
        delta == 8 || delta == -8 || delta == 1 || delta == -1,
    ensures
        forall|sq: int|
            on_board(sq) ==> squares_of(#[trigger] moves[sq]) == Set::new(
                |to: int| along(sq, to, delta as int),
            ),
        moves@ == ray_table(delta as int)@,
{
    let mut moves = [0u64;64];
    let mut square: u8 = 0;

    while square < 64
        invariant
            square <= 64,
            delta == 8 || delta == -8 || delta == 1 || delta == -1,
            forall|sq: int|
                0 <= sq < square ==> squares_of(#[trigger] moves[sq]) == Set::new(
                    |to: int| along(sq, to, delta as int),
                ),
        decreases 64 - square,
    {
        let mut bb = 0u64;
        let mut current = square;
        proof {
            lemma_zero_and_ones();
            assert(squares_of(bb) =~= Set::new(
                |to: int|
                    along(square as int, to, delta as int) && within(
                        to,
                        current as int,
                        delta as int,
                    ),
            ));
        }

        loop
            invariant
                square < 64,
                current < 64,
                delta == 8 || delta == -8 || delta == 1 || delta == -1,
                current == square || along(square as int, current as int, delta as int),
                squares_of(bb) == Set::new(
                    |to: int|
                        along(square as int, to, delta as int) && within(
                            to,
                            current as int,
                            delta as int,
                        ),
                ),
            ensures
                squares_of(bb) == Set::new(|to: int| along(square as int, to, delta as int)),
            decreases
                    (if delta > 0 {
                        64 - current
                    } else {
                        current as int
                    }),
        {
            // Check for vertical bounds and for wrapping around board edges
            let file = current % 8;
            if (delta == 8 && current >= 56) || (delta == -8 && current < 8) || (delta == 1 && file
                == 7) || (delta == -1 && file == 0) {
                proof {
                    lemma_ray_ends(square as int, current as int, delta as int);
                    assert(squares_of(bb) =~= Set::new(
                        |to: int| along(square as int, to, delta as int),
                    ));
                }
                break ;
            }
            proof {
                lemma_ray_grows(square as int, current as int, delta as int);
            }
            let new_square = (current as i8 + delta) as u8;
            bb = with_bit(bb, new_square);
            proof {
                assert(squares_of(bb) =~= Set::new(
                    |to: int|
                        along(square as int, to, delta as int) && within(
                            to,
                            new_square as int,
                            delta as int,
                        ),
                ));
            }
            current = new_square;
        }

        moves[square as usize] = bb;
        square += 1;
    }
    proof {
        assert forall|sq: int| 0 <= sq < 64 implies #[trigger] moves[sq] == ray_table(
            delta as int,
        )[sq] by {
            lemma_ray_tables(sq);
            assert(squares_of(moves[sq]) =~= squares_of(ray_table(delta as int)[sq]));
            lemma_same_squares(moves[sq], ray_table(delta as int)[sq]);
        }
        assert(moves@ =~= ray_table(delta as int)@);
    }
    moves
}

/// Computes the king table: for every square its neighbours on the board.
pub fn generate_king_moves() -> (moves: [u64; 64])
    ensures
        forall|sq: int| on_board(sq) ==> squares_of(#[trigger] moves[sq]) == king_targets(sq),
        moves@ == KING_MOVES@,
{
    let mut moves = [0u64;64];
    let mut square: u8 = 0;

    while square < 64
        invariant
            square <= 64,
            forall|sq: int|
                0 <= sq < square ==> squares_of(#[trigger] moves[sq]) == king_targets(sq),
        decreases 64 - square,
    {
        let mut bb = 0u64;
        let rank = square / 8;
        let file = square % 8;
        proof {
            lemma_zero_and_ones();
        }

        // All eight possible king moves
        if file < 7 {
            bb = with_bit(bb, square + 1);
        }  // right
        if file > 0 {
            bb = with_bit(bb, square - 1);
        }  // left
        if rank < 7 {
            bb = with_bit(bb, square + 8);
        }  // up
        if rank > 0 {
            bb = with_bit(bb, square - 8);
        }  // down
        if rank < 7 && file < 7 {
            bb = with_bit(bb, square + 9);
        }  // up right
        if rank < 7 && file > 0 {
            bb = with_bit(bb, square + 7);
        }  // up left
        if rank > 0 && file < 7 {
            bb = with_bit(bb, square - 7);
        }  // down right
        if rank > 0 && file > 0 {
            bb = with_bit(bb, square - 9);
        }  // down left

        proof {
            lemma_king_steps(square as int);
            assert(squares_of(bb) =~= king_steps(square as int));
        }
        moves[square as usize] = bb;
        square += 1;
    }
    proof {
        assert forall|sq: int| 0 <= sq < 64 implies #[trigger] moves[sq] == KING_MOVES[sq] by {
            lemma_king_table(sq);
            lemma_same_squares(moves[sq], KING_MOVES[sq]);
        }
        assert(moves@ =~= KING_MOVES@);
    }
    moves
}

} // verus!
