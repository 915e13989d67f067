use checkbit::bitboard::Bitboard;
use checkbit::constants::{FILE_A, FILE_B, FILE_G, FILE_H, RANK_1, RANK_2, RANK_7, RANK_8};

#[test]
fn pop_count_counts_the_squares() {
    assert_eq!(Bitboard::from_u64(0xFF00).pop_count(), 8);
    assert_eq!(Bitboard::full().pop_count(), 64);
    assert_eq!(Bitboard::from_u64(0x8000000000000001).pop_count(), 2);
}

#[test]
fn lowest_and_highest_square() {
    let bb = Bitboard::from_u64(0x0000010000100000);
    assert_eq!(bb.lsb(), Some(20));
    assert_eq!(bb.msb(), Some(40));

    let single = Bitboard::from_u64(1 << 37);
    assert_eq!(single.lsb(), Some(37));
    assert_eq!(single.msb(), Some(37));

    assert_eq!(Bitboard::full().lsb(), Some(0));
    assert_eq!(Bitboard::full().msb(), Some(63));
}

#[test]
fn shifts_move_every_square() {
    assert_eq!(
        Bitboard::from_u64(RANK_1).shift_north(),
        Some(Bitboard::from_u64(RANK_2))
    );
    assert_eq!(
        Bitboard::from_u64(RANK_8).shift_south(),
        Some(Bitboard::from_u64(RANK_7))
    );
    assert_eq!(
        Bitboard::from_u64(FILE_A).shift_east(),
        Some(Bitboard::from_u64(FILE_B))
    );
    assert_eq!(
        Bitboard::from_u64(FILE_H).shift_west(),
        Some(Bitboard::from_u64(FILE_G))
    );
    assert_eq!(
        Bitboard::from_u64(0x0000001818000000).shift_north(),
        Some(Bitboard::from_u64(0x0000181800000000))
    );
    assert_eq!(
        Bitboard::from_u64(0x0000001818000000).shift_west(),
        Some(Bitboard::from_u64(0x0000000C0C000000))
    );
}

#[test]
fn shifts_refuse_to_cross_their_edge() {
    assert_eq!(Bitboard::from_u64(1 << 56).shift_north(), None);
    assert_eq!(Bitboard::from_u64(1 << 7).shift_south(), None);
    assert_eq!(Bitboard::from_u64(1 << 15).shift_east(), None);
    assert_eq!(Bitboard::from_u64(1 << 48).shift_west(), None);

    // The other three edges do not stop a shift
    let h8 = Bitboard::from_u64(1 << 63);
    assert_eq!(h8.shift_south(), Some(Bitboard::from_u64(1 << 55)));
    assert_eq!(h8.shift_west(), Some(Bitboard::from_u64(1 << 62)));
    let a1 = Bitboard::from_u64(1);
    assert_eq!(a1.shift_north(), Some(Bitboard::from_u64(1 << 8)));
    assert_eq!(a1.shift_east(), Some(Bitboard::from_u64(1 << 1)));

    // Nothing to shift, nothing to refuse
    assert_eq!(Bitboard::empty().shift_north(), Some(Bitboard::empty()));
    assert_eq!(Bitboard::empty().shift_west(), Some(Bitboard::empty()));
}

#[test]
fn set_algebra() {
    let a = Bitboard::from_u64(0x0FF0);
    let b = Bitboard::from_u64(0x00FF);
    assert_eq!((a & b).as_u64(), 0x00F0);
    assert_eq!((a | b).as_u64(), 0x0FFF);
    assert_eq!((a ^ b).as_u64(), 0x0F0F);
    assert_eq!((!a).as_u64(), 0xFFFFFFFFFFFFF00F);
    assert_eq!(!Bitboard::empty(), Bitboard::full());
    assert_eq!(!Bitboard::full(), Bitboard::empty());
}

#[test]
fn setting_and_clearing_twice() {
    let mut bb = Bitboard::from_u64(0x10);
    bb.set_bit(4);
    assert_eq!(bb.as_u64(), 0x10);
    bb.set_bit(63);
    assert_eq!(bb.as_u64(), 0x8000000000000010);
    bb.clear_bit(5);
    assert_eq!(bb.as_u64(), 0x8000000000000010);
    bb.clear_bit(63);
    bb.clear_bit(63);
    assert_eq!(bb.as_u64(), 0x10);
    assert!(bb.test_bit(4));
    assert!(!bb.test_bit(63));
}

#[test]
fn equal_bits_make_equal_bitboards() {
    let mut built = Bitboard::empty();
    for square in 8..16 {
        built.set_bit(square);
    }
    assert_eq!(built, Bitboard::from_u64(RANK_2));
    assert_ne!(built, Bitboard::from_u64(RANK_7));
}
