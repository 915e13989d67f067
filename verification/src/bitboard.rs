//! A set of board squares held in one 64-bit word.

use vstd::prelude::*;
use crate::bits::{
    lemma_and,
    lemma_low_bit,
    lemma_meet,
    lemma_not,
    lemma_or,
    lemma_same_squares,
    lemma_shift_east,
    lemma_shift_north,
    lemma_shift_south,
    lemma_shift_west,
    lemma_single,
    lemma_squares_finite,
    lemma_top_bit,
    lemma_xor,
    lemma_zero_and_ones,
    lemma_zero_iff_empty,
    squares_of,
};
use crate::constants::{file_mask, lemma_masks, rank_mask, FILE_A, FILE_H, RANK_1, RANK_8};
use crate::geometry::{all_squares, file_of, rank_of, shifted};

verus! {

/// A subset of the 64 squares. Bit `i` of the word is one exactly when
/// square `i` belongs to the set; the view of a `Bitboard` is that set.
#[derive(Debug, Clone, Copy, PartialEq, Eq, Structural)]
pub struct Bitboard(u64);

impl View for Bitboard {
    type V = Set<int>;

    open spec fn view(&self) -> Set<int> {
        squares_of(self.bits())
    }
}

impl Bitboard {
    /// The underlying word.
    pub closed spec fn bits(self) -> u64 {
        self.0
    }

    /// A bitboard is its word: equal words make equal bitboards.
    pub proof fn lemma_bits_determine(self, other: Bitboard)
        requires
            self.bits() == other.bits(),
        ensures
            self == other,
    {
    }

    /// A bitboard is the set it stands for: no two bitboards share a view.
    pub proof fn lemma_view_determines(self, other: Bitboard)
        requires
            self@ == other@,
        ensures
            self == other,
    {
        lemma_same_squares(self.0, other.0);
    }

    /// The view holds squares of the board only, so at most 64 of them.
    pub proof fn lemma_view_finite(self)
        ensures
            self@.subset_of(all_squares()),
            self@.finite(),
            self@.len() <= 64,
    {
        lemma_squares_finite(self.0);
    }

    /// Creates a new empty bitboard
    pub fn empty() -> (r: Self)
        ensures
            r.bits() == 0,
            r@ == Set::<int>::empty(),
    {
        proof {
            lemma_zero_and_ones();
        }
        Bitboard(0)
    }

    /// Creates a new bitboard with all bits set
    pub fn full() -> (r: Self)
        ensures
            r.bits() == !0u64,
            r@ == all_squares(),
    {
        proof {
            lemma_zero_and_ones();
        }
        Bitboard(!0)
    }

    /// Creates a new bitboard from a u64
    pub fn from_u64(bits: u64) -> (r: Self)
        ensures
            r.bits() == bits,
    {
        Bitboard(bits)
    }

    /// Gets the underlying u64 representation
    pub fn as_u64(&self) -> (r: u64)
        ensures
            r == self.bits(),
    {
        self.0
    }

    /// Sets the bit at the given square (0-63)
    pub fn set_bit(&mut self, square: u8)
        requires
            square < 64,
        ensures
            final(self)@ == old(self)@.insert(square as int),
    {
        proof {
            lemma_single(square as u64);
            lemma_or(self.0, 1u64 << square);
            assert(squares_of(self.0 | (1u64 << square)) =~= squares_of(self.0).insert(
                square as int,
            ));
        }
        self.0 = self.0 | (1u64 << square);
    }

    /// Clears the bit at the given square (0-63)
    pub fn clear_bit(&mut self, square: u8)
        requires
            square < 64,
        ensures
            final(self)@ == old(self)@.remove(square as int),
    {
        proof {
            lemma_single(square as u64);
            lemma_not(1u64 << square);
            lemma_and(self.0, !(1u64 << square));
            assert(squares_of(self.0 & !(1u64 << square)) =~= squares_of(self.0).remove(
                square as int,
            ));
        }
        self.0 = self.0 & !(1u64 << square);
    }

    /// Tests if the bit at the given square (0-63) is set
    pub fn test_bit(&self, square: u8) -> (r: bool)
        requires
            square < 64,
        ensures
            r == self@.contains(square as int),
    {
        proof {
            let hit = self.0 & (1u64 << square);
            lemma_single(square as u64);
            lemma_and(self.0, 1u64 << square);
            lemma_zero_iff_empty(hit);
            if self@.contains(square as int) {
                assert(squares_of(hit).contains(square as int));
            } else {
                assert(squares_of(hit) =~= Set::<int>::empty());
            }
        }
        (self.0 & (1u64 << square)) != 0
    }

    /// Returns the number of set bits (population count)
    pub fn pop_count(&self) -> (r: u32)
        ensures
            r == self@.len(),
    {
        self.0.count_ones()
    }

    /// Returns the index of the least significant set bit, or None if the bitboard is empty
    pub fn lsb(&self) -> (r: Option<u8>)
        ensures
            r is None <==> self@ == Set::<int>::empty(),
            r matches Some(low) ==> self@.contains(low as int) && forall|sq: int|
                self@.contains(sq) ==> low <= sq,
    {
        proof {
            lemma_zero_iff_empty(self.0);
        }
        if self.0 == 0 {
            None
        } else {
            let zeros = self.0.trailing_zeros();
            proof {
                lemma_low_bit(self.0);
            }
            Some(zeros as u8)
        }
    }

    /// Returns the index of the most significant set bit, or None if the bitboard is empty
    pub fn msb(&self) -> (r: Option<u8>)
        ensures
            r is None <==> self@ == Set::<int>::empty(),
            r matches Some(high) ==> self@.contains(high as int) && forall|sq: int|
                self@.contains(sq) ==> sq <= high,
    {
        proof {
            lemma_zero_iff_empty(self.0);
        }
        if self.0 == 0 {
            None
        } else {
            let zeros = self.0.leading_zeros();
            proof {
                lemma_top_bit(self.0);
            }
            Some(63 - zeros as u8)
        }
    }

    /// Returns a new bitboard with all bits shifted north (up) by one rank, or None if any bits would shift off the board
    pub fn shift_north(&self) -> (r: Option<Bitboard>)
        ensures
            r is None <==> exists|sq: int| self@.contains(sq) && rank_of(sq) == 7,
            r matches Some(moved) ==> moved@ == shifted(self@, 8),
    {
        proof {
            self.lemma_meets_rank(7);
        }
        if self.0 & RANK_8 != 0 {
            None
        } else {
            proof {
                lemma_shift_north(self.0);
            }
            Some(Bitboard(self.0 << 8))
        }
    }

    /// Returns a new bitboard with all bits shifted south (down) by one rank, or None if any bits would shift off the board
    pub fn shift_south(&self) -> (r: Option<Bitboard>)
        ensures
            r is None <==> exists|sq: int| self@.contains(sq) && rank_of(sq) == 0,
            r matches Some(moved) ==> moved@ == shifted(self@, -8),
    {
        proof {
            self.lemma_meets_rank(0);
        }
        if self.0 & RANK_1 != 0 {
            None
        } else {
            proof {
                lemma_shift_south(self.0);
            }
            Some(Bitboard(self.0 >> 8))
        }
    }

    /// Returns a new bitboard with all bits shifted east (right) by one file, or None if any bits would shift off the board
    pub fn shift_east(&self) -> (r: Option<Bitboard>)
        ensures
            r is None <==> exists|sq: int| self@.contains(sq) && file_of(sq) == 7,
            r matches Some(moved) ==> moved@ == shifted(self@, 1),
    {
        proof {
            self.lemma_meets_file(7);
        }
        if self.0 & FILE_H != 0 {
            None
        } else {
            proof {
                lemma_shift_east(self.0);
            }
            Some(Bitboard(self.0 << 1))
        }
    }

    /// Returns a new bitboard with all bits shifted west (left) by one file, or None if any bits would shift off the board
    pub fn shift_west(&self) -> (r: Option<Bitboard>)
        ensures
            r is None <==> exists|sq: int| self@.contains(sq) && file_of(sq) == 0,
            r matches Some(moved) ==> moved@ == shifted(self@, -1),
    {
        proof {
            self.lemma_meets_file(0);
        }
        if self.0 & FILE_A != 0 {
            None
        } else {
            proof {
                lemma_shift_west(self.0);
            }
            Some(Bitboard(self.0 >> 1))
        }
    }

    /// The bitboard meets the mask of a rank exactly if it holds a square
    /// of that rank.
    proof fn lemma_meets_rank(self, rank: int)
        requires
            0 <= rank < 8,
        ensures
            self.0 & rank_mask(rank) != 0 <==> exists|sq: int|
                self@.contains(sq) && rank_of(sq) == rank,
            self.0 & rank_mask(rank) == 0 ==> forall|sq: int|
                squares_of(self.0).contains(sq) ==> rank_of(sq) != rank,
    {
        let mask = rank_mask(rank);
        lemma_meet(self.0, mask);
        lemma_masks(rank);
        if self.0 & mask != 0 {
            let sq = choose|sq: int| squares_of(self.0).contains(sq) && squares_of(mask).contains(sq);
            assert(self@.contains(sq) && rank_of(sq) == rank);
        } else {
            assert forall|sq: int| squares_of(self.0).contains(sq) implies rank_of(sq) != rank by {
                if rank_of(sq) == rank {
                    assert(squares_of(mask).contains(sq));
                }
            }
        }
    }

    /// The bitboard meets the mask of a file exactly if it holds a square
    /// of that file.
    proof fn lemma_meets_file(self, file: int)
        requires
            0 <= file < 8,
        ensures
            self.0 & file_mask(file) != 0 <==> exists|sq: int|
                self@.contains(sq) && file_of(sq) == file,
            self.0 & file_mask(file) == 0 ==> forall|sq: int|
                squares_of(self.0).contains(sq) ==> file_of(sq) != file,
    {
        let mask = file_mask(file);
        lemma_meet(self.0, mask);
        lemma_masks(file);
        if self.0 & mask != 0 {
            let sq = choose|sq: int| squares_of(self.0).contains(sq) && squares_of(mask).contains(sq);
            assert(self@.contains(sq) && file_of(sq) == file);
        } else {
            assert forall|sq: int| squares_of(self.0).contains(sq) implies file_of(sq) != file by {
                if file_of(sq) == file {
                    assert(squares_of(mask).contains(sq));
                }
            }
        }
    }
}

impl core::ops::BitAnd for Bitboard {
    type Output = Self;

    fn bitand(self, rhs: Self) -> (r: Self)
        ensures
            r.bits() == self.bits() & rhs.bits(),
            r@ == self@.intersect(rhs@),
    {
        proof {
            lemma_and(self.0, rhs.0);
        }
        Bitboard(self.0 & rhs.0)
    }
}

impl vstd::std_specs::ops::BitAndSpecImpl for Bitboard {
    open spec fn obeys_bitand_spec() -> bool {
        true
    }

    open spec fn bitand_req(self, rhs: Self) -> bool {
        true
    }

    closed spec fn bitand_spec(self, rhs: Self) -> Self {
        Bitboard(self.0 & rhs.0)
    }
}

impl core::ops::BitOr for Bitboard {
    type Output = Self;

    fn bitor(self, rhs: Self) -> (r: Self)
        ensures
            r.bits() == self.bits() | rhs.bits(),
            r@ == self@.union(rhs@),
    {
        proof {
            lemma_or(self.0, rhs.0);
        }
        Bitboard(self.0 | rhs.0)
    }
}

impl vstd::std_specs::ops::BitOrSpecImpl for Bitboard {
    open spec fn obeys_bitor_spec() -> bool {
        true
    }

    open spec fn bitor_req(self, rhs: Self) -> bool {
        true
    }

    closed spec fn bitor_spec(self, rhs: Self) -> Self {
        Bitboard(self.0 | rhs.0)
    }
}

impl core::ops::BitXor for Bitboard {
    type Output = Self;

    fn bitxor(self, rhs: Self) -> (r: Self)
        ensures
            r.bits() == self.bits() ^ rhs.bits(),
            r@ == self@.difference(rhs@).union(rhs@.difference(self@)),
    {
        proof {
            lemma_xor(self.0, rhs.0);
        }
        Bitboard(self.0 ^ rhs.0)
    }
}

impl vstd::std_specs::ops::BitXorSpecImpl for Bitboard {
    open spec fn obeys_bitxor_spec() -> bool {
        true
    }

    open spec fn bitxor_req(self, rhs: Self) -> bool {
        true
    }

    closed spec fn bitxor_spec(self, rhs: Self) -> Self {
        Bitboard(self.0 ^ rhs.0)
    }
}

impl core::ops::Not for Bitboard {
    type Output = Self;

    fn not(self) -> (r: Self)
        ensures
            r.bits() == !self.bits(),
            r@ == all_squares().difference(self@),
    {
        proof {
            lemma_not(self.0);
        }
        Bitboard(!self.0)
    }
}

impl vstd::std_specs::ops::NotSpecImpl for Bitboard {
    open spec fn obeys_not_spec() -> bool {
        true
    }

    open spec fn not_req(self) -> bool {
        true
    }

    closed spec fn not_spec(self) -> Self {
        Bitboard(!self.0)
    }
}

} // verus!
