//! How a 64-bit word stands for a set of squares, and what the machine's
//! bitwise operations do to that set.

use vstd::prelude::*;
use crate::geometry::{all_squares, file_of, on_board, rank_of, shifted};

verus! {

/// True when bit `sq` of `bits` is one.
pub open spec fn has_bit(bits: u64, sq: int) -> bool {
    0 <= sq < 64 && (bits >> (sq as u64)) & 1 == 1
}

/// The set of squares whose bit is one in `bits`.
pub open spec fn squares_of(bits: u64) -> Set<int> {
    Set::new(|sq: int| has_bit(bits, sq))
}

/// `u64::count_ones` of the standard library, documented as "the number of
/// ones in the binary representation" of its argument: the result is the
/// number of bit positions that hold a one. Verus takes this on trust.
pub assume_specification[ u64::count_ones ](bits: u64) -> (ones: u32)
    ensures
        ones as nat == squares_of(bits).len(),
;

proof fn bitwise_at(a: u64, b: u64, s: u64)
    by (bit_vector)
    requires
        s < 64,
    ensures
        (((a | b) >> s) & 1 == 1) == ((a >> s) & 1 == 1 || (b >> s) & 1 == 1),
        (((a & b) >> s) & 1 == 1) == ((a >> s) & 1 == 1 && (b >> s) & 1 == 1),
        (((a ^ b) >> s) & 1 == 1) == (((a >> s) & 1 == 1) != ((b >> s) & 1 == 1)),
        (((!a) >> s) & 1 == 1) == !((a >> s) & 1 == 1),
        (0u64 >> s) & 1 == 0,
        (a >> s) & 1 == 0 || (a >> s) & 1 == 1,
        a ^ b == 0 ==> a == b,
{
}

proof fn single_at(sq: u64, s: u64)
    by (bit_vector)
    requires
        sq < 64,
        s < 64,
    ensures
        (((1u64 << sq) >> s) & 1 == 1) == (s == sq),
{
}

proof fn shift_at(a: u64, s: u64)
    by (bit_vector)
    requires
        s < 64,
    ensures
        (((a << 8) >> s) & 1 == 1) == (s >= 8 && (a >> ((s - 8) as u64)) & 1 == 1),
        (((a >> 8) >> s) & 1 == 1) == (s < 56 && (a >> ((s + 8) as u64)) & 1 == 1),
        (((a << 1) >> s) & 1 == 1) == (s >= 1 && (a >> ((s - 1) as u64)) & 1 == 1),
        (((a >> 1) >> s) & 1 == 1) == (s < 63 && (a >> ((s + 1) as u64)) & 1 == 1),
{
}

/// A word holds only squares of the board, so finitely many.
pub proof fn lemma_squares_finite(bits: u64)
    ensures
        squares_of(bits).subset_of(all_squares()),
        squares_of(bits).finite(),
        squares_of(bits).len() <= 64,
{
    vstd::set_lib::lemma_int_range(0, 64);
    assert(all_squares() =~= vstd::set_lib::set_int_range(0, 64));
    vstd::set_lib::lemma_len_subset(squares_of(bits), all_squares());
}

/// The zero word is the empty set, the word of all ones the whole board.
pub proof fn lemma_zero_and_ones()
    ensures
        squares_of(0) == Set::<int>::empty(),
        squares_of(!0u64) == all_squares(),
{
    assert forall|sq: int| !has_bit(0, sq) by {
        if on_board(sq) {
            bitwise_at(0, 0, sq as u64);
        }
    }
    assert forall|sq: int| has_bit(!0u64, sq) == on_board(sq) by {
        if on_board(sq) {
            bitwise_at(0, 0, sq as u64);
        }
    }
    assert(squares_of(0) =~= Set::<int>::empty());
    assert(squares_of(!0u64) =~= all_squares());
}

/// The lowest square of a word that is not zero sits where its trailing
/// zeros end.
pub proof fn lemma_low_bit(bits: u64)
    requires
        bits != 0,
    ensures
        bits.trailing_zeros() < 64,
        has_bit(bits, bits.trailing_zeros() as int),
        forall|sq: int| has_bit(bits, sq) ==> bits.trailing_zeros() <= sq,
{
    vstd::std_specs::bits::axiom_u64_trailing_zeros(bits);
    let zeros = bits.trailing_zeros();
    assert forall|sq: int| has_bit(bits, sq) implies zeros <= sq by {
        if sq < zeros {
            assert((bits >> (sq as u64)) & 1u64 == 0u64);
        }
    }
}

/// The highest square of a word that is not zero sits just below its
/// leading zeros.
pub proof fn lemma_top_bit(bits: u64)
    requires
        bits != 0,
    ensures
        0 <= vstd::std_specs::bits::u64_leading_zeros(bits) < 64,
        has_bit(bits, 63 - vstd::std_specs::bits::u64_leading_zeros(bits)),
        forall|sq: int|
            has_bit(bits, sq) ==> sq <= 63 - vstd::std_specs::bits::u64_leading_zeros(bits),
{
    vstd::std_specs::bits::axiom_u64_leading_zeros(bits);
    let zeros = vstd::std_specs::bits::u64_leading_zeros(bits);
    let top = (63 - zeros) as u64;
    bitwise_at(bits, bits, top);
    assert((bits >> top) & 1 == 1);
    assert forall|sq: int| has_bit(bits, sq) implies sq <= 63 - zeros by {
        if sq > 63 - zeros {
            assert((bits >> (sq as u64)) & 1u64 == 0u64);
        }
    }
}

/// A word is zero exactly when it holds no square.
pub proof fn lemma_zero_iff_empty(bits: u64)
    ensures
        bits == 0 <==> squares_of(bits) == Set::<int>::empty(),
{
    lemma_zero_and_ones();
    if bits != 0 {
        lemma_low_bit(bits);
        assert(squares_of(bits).contains(bits.trailing_zeros() as int));
    }
}

/// `1 << sq` holds the square `sq` and no other.
pub proof fn lemma_single(sq: u64)
    requires
        sq < 64,
    ensures
        squares_of(1u64 << sq) == set![sq as int],
{
    assert forall|s: int| has_bit(1u64 << sq, s) == (s == sq) by {
        if on_board(s) {
            single_at(sq, s as u64);
        }
    }
    assert(squares_of(1u64 << sq) =~= set![sq as int]);
}

/// Bitwise "or" is the union of the two sets.
pub proof fn lemma_or(a: u64, b: u64)
    ensures
        squares_of(a | b) == squares_of(a).union(squares_of(b)),
{
    assert forall|s: int| has_bit(a | b, s) == (has_bit(a, s) || has_bit(b, s)) by {
        if on_board(s) {
            bitwise_at(a, b, s as u64);
        }
    }
    assert(squares_of(a | b) =~= squares_of(a).union(squares_of(b)));
}

/// Bitwise "and" is the intersection of the two sets.
pub proof fn lemma_and(a: u64, b: u64)
    ensures
        squares_of(a & b) == squares_of(a).intersect(squares_of(b)),
{
    assert forall|s: int| has_bit(a & b, s) == (has_bit(a, s) && has_bit(b, s)) by {
        if on_board(s) {
            bitwise_at(a, b, s as u64);
        }
    }
    assert(squares_of(a & b) =~= squares_of(a).intersect(squares_of(b)));
}

/// Bitwise "exclusive or" holds the squares that are in exactly one of the
/// two sets.
pub proof fn lemma_xor(a: u64, b: u64)
    ensures
        squares_of(a ^ b) == squares_of(a).difference(squares_of(b)).union(
            squares_of(b).difference(squares_of(a)),
        ),
{
    assert forall|s: int| has_bit(a ^ b, s) == (has_bit(a, s) != has_bit(b, s)) by {
        if on_board(s) {
            bitwise_at(a, b, s as u64);
        }
    }
    assert(squares_of(a ^ b) =~= squares_of(a).difference(squares_of(b)).union(
        squares_of(b).difference(squares_of(a)),
    ));
}

/// Bitwise "not" is the complement within the board.
pub proof fn lemma_not(a: u64)
    ensures
        squares_of(!a) == all_squares().difference(squares_of(a)),
{
    assert forall|s: int| has_bit(!a, s) == (on_board(s) && !has_bit(a, s)) by {
        if on_board(s) {
            bitwise_at(a, a, s as u64);
        }
    }
    assert forall|s: int|
        squares_of(!a).contains(s) == all_squares().difference(squares_of(a)).contains(s) by {
        assert(squares_of(!a).contains(s) == has_bit(!a, s));
    }
    assert(squares_of(!a) =~= all_squares().difference(squares_of(a)));
}

/// Two words that hold the same squares are the same word.
pub proof fn lemma_same_squares(a: u64, b: u64)
    requires
        squares_of(a) == squares_of(b),
    ensures
        a == b,
{
    let d = a ^ b;
    if d != 0 {
        lemma_low_bit(d);
        let k = d.trailing_zeros() as int;
        assert(has_bit(d, k));
        bitwise_at(a, b, k as u64);
        assert(has_bit(a, k) != has_bit(b, k));
        assert(squares_of(a).contains(k) == has_bit(a, k));
        assert(squares_of(b).contains(k) == has_bit(b, k));
    } else {
        bitwise_at(a, b, 0);
    }
}

/// What shifting by a rank or by a file does to single bits: bit `s` of the
/// result is bit `s - delta` of the argument, where that is a bit at all.
pub proof fn lemma_shift_bits(a: u64, s: int)
    requires
        on_board(s),
    ensures
        has_bit(a << 8, s) == has_bit(a, s - 8),
        has_bit(a >> 8, s) == has_bit(a, s + 8),
        has_bit(a << 1, s) == has_bit(a, s - 1),
        has_bit(a >> 1, s) == has_bit(a, s + 1),
{
    shift_at(a, s as u64);
}

/// Two words share a square exactly when their bitwise "and" is not zero.
pub proof fn lemma_meet(a: u64, b: u64)
    ensures
        a & b != 0 <==> exists|sq: int| squares_of(a).contains(sq) && squares_of(b).contains(sq),
{
    lemma_and(a, b);
    lemma_zero_iff_empty(a & b);
    if a & b != 0 {
        lemma_low_bit(a & b);
        let sq = (a & b).trailing_zeros() as int;
        assert(squares_of(a & b).contains(sq));
        assert(squares_of(a).contains(sq) && squares_of(b).contains(sq));
    } else {
        assert forall|sq: int| !(squares_of(a).contains(sq) && squares_of(b).contains(sq)) by {
            if squares_of(a).contains(sq) && squares_of(b).contains(sq) {
                assert(squares_of(a & b).contains(sq));
            }
        }
    }
}

/// A word with no square on rank 8, shifted left by eight bits, holds each
/// of its squares one rank further north.
pub proof fn lemma_shift_north(a: u64)
    requires
        forall|sq: int| squares_of(a).contains(sq) ==> rank_of(sq) != 7,
    ensures
        squares_of(a << 8) == shifted(squares_of(a), 8),
{
    assert forall|to: int| has_bit(a << 8, to) == has_bit(a, to - 8) by {
        if on_board(to) {
            lemma_shift_bits(a, to);
        } else if has_bit(a, to - 8) {
            assert(squares_of(a).contains(to - 8));
            assert(rank_of(to - 8) == 7);
        }
    }
    assert(squares_of(a << 8) =~= shifted(squares_of(a), 8));
}

/// A word with no square on rank 1, shifted right by eight bits, holds each
/// of its squares one rank further south.
pub proof fn lemma_shift_south(a: u64)
    requires
        forall|sq: int| squares_of(a).contains(sq) ==> rank_of(sq) != 0,
    ensures
        squares_of(a >> 8) == shifted(squares_of(a), -8),
{
    assert forall|to: int| has_bit(a >> 8, to) == has_bit(a, to + 8) by {
        if on_board(to) {
            lemma_shift_bits(a, to);
        } else if has_bit(a, to + 8) {
            assert(squares_of(a).contains(to + 8));
            assert(rank_of(to + 8) == 0);
        }
    }
    assert(squares_of(a >> 8) =~= shifted(squares_of(a), -8));
}

/// A word with no square on file H, shifted left by one bit, holds each of
/// its squares one file further east.
pub proof fn lemma_shift_east(a: u64)
    requires
        forall|sq: int| squares_of(a).contains(sq) ==> file_of(sq) != 7,
    ensures
        squares_of(a << 1) == shifted(squares_of(a), 1),
{
    assert forall|to: int| has_bit(a << 1, to) == has_bit(a, to - 1) by {
        if on_board(to) {
            lemma_shift_bits(a, to);
        } else if has_bit(a, to - 1) {
            assert(squares_of(a).contains(to - 1));
            assert(file_of(to - 1) == 7);
        }
    }
    assert(squares_of(a << 1) =~= shifted(squares_of(a), 1));
}

/// A word with no square on file A, shifted right by one bit, holds each of
/// its squares one file further west.
pub proof fn lemma_shift_west(a: u64)
    requires
        forall|sq: int| squares_of(a).contains(sq) ==> file_of(sq) != 0,
    ensures
        squares_of(a >> 1) == shifted(squares_of(a), -1),
{
    assert forall|to: int| has_bit(a >> 1, to) == has_bit(a, to + 1) by {
        if on_board(to) {
            lemma_shift_bits(a, to);
        } else if has_bit(a, to + 1) {
            assert(squares_of(a).contains(to + 1));
            assert(file_of(to + 1) == 0);
        }
    }
    assert(squares_of(a >> 1) =~= shifted(squares_of(a), -1));
}

} // verus!
