use chess_engine::board_repr::bit_board::BitBoard;
use chess_engine::board_repr::square::Square;

fn all_squares() -> Vec<Square> {
    (0u8..64).map(Square::get_by_index).collect()
}

#[test]
fn test_get_bit_value_empty_board() {
    let bb = BitBoard::default();

    for square in all_squares() {
        let bit = bb.get_bit_value(square);
        assert!(!bit);
    }
}

#[test]
fn test_get_bit_value_full_board() {
    let bb = BitBoard::from(u64::MAX);

    for square in all_squares() {
        let bit = bb.get_bit_value(square);
        assert!(bit);
    }
}

#[test]
fn test_set_bit_value() {
    let mut bb = BitBoard::default();

    for square in all_squares() {
        bb.set_bit_value(square);
    }

    assert_eq!(bb.0, u64::MAX);
}

#[test]
fn test_bit_and() {
    let bb = BitBoard::default();
    let bbf = BitBoard::from(u64::MAX);

    assert_eq!(bb & bbf, BitBoard::default());
    assert_eq!(bb & u64::MAX, BitBoard::default());
}

#[test]
fn test_bit_or() {
    let bb = BitBoard::default();
    let bbf = BitBoard::from(u64::MAX);

    assert_eq!(bb | bbf, BitBoard::from(u64::MAX));
    assert_eq!(bb | u64::MAX, BitBoard::from(u64::MAX));
}

#[test]
fn test_bit_shift_left() {
    let bb = BitBoard::from(15u64);

    assert_eq!(bb << 5, BitBoard::from(15u64 << 5));
}

#[test]
fn test_bit_shift_right() {
    let bb = BitBoard::from(15u64);

    assert_eq!(bb >> 5, BitBoard::from(15u64 >> 5));
}

#[test]
fn each_square_has_one_bit_at_its_index() {
    for square in all_squares() {
        let bb = square.get_bitboard();
        assert_eq!(bb.value(), 1u64 << square.index());
        assert_eq!(bb.count_ones(), 1);
        assert_eq!(bb.lsb_bit_square(), square);
    }
}

#[test]
fn count_ones_counts_the_squares() {
    assert_eq!(BitBoard::from(0).count_ones(), 0);
    assert_eq!(BitBoard::from(u64::MAX).count_ones(), 64);
    assert_eq!(BitBoard::from(0xff00).count_ones(), 8);
    assert_eq!(BitBoard::from(0x8000_0000_0000_0001).count_ones(), 2);
}

#[test]
fn lowest_square_of_a_set() {
    assert_eq!(BitBoard::from(0b1000).lsb_bit_square(), Square::D8);
    assert_eq!(BitBoard::from(u64::MAX).lsb_bit_square(), Square::A8);
    assert_eq!(BitBoard::from(1u64 << 63).lsb_bit_square(), Square::H1);
    assert_eq!(BitBoard::from((1u64 << 63) | (1u64 << 36)).lsb_bit_square(), Square::E4);
}

#[test]
fn pop_bit_takes_one_square_out() {
    let mut bb = BitBoard::from(u64::MAX);
    bb.pop_bit_value(Square::A8);
    assert_eq!(bb.value(), u64::MAX - 1);
    bb.pop_bit_value(Square::A8);
    assert_eq!(bb.value(), u64::MAX - 1);
    assert!(!bb.get_bit_value(Square::A8));
    assert!(bb.get_bit_value(Square::B8));
}

#[test]
fn empty_tells_the_empty_set() {
    assert!(BitBoard::from(0).empty());
    assert!(BitBoard::default().empty());
    assert!(!BitBoard::from(1).empty());
}

#[test]
fn wrapping_arithmetic_is_modulo_two_to_the_64() {
    let max = BitBoard::from(u64::MAX);
    let one = BitBoard::from(1);
    let zero = BitBoard::from(0);
    assert_eq!(max.wrapping_add(one), zero);
    assert_eq!(zero.wrapping_sub(one), max);
    assert_eq!(max.wrapping_mul(BitBoard::from(2)), BitBoard::from(u64::MAX - 1));
    assert_eq!(BitBoard::from(5).wrapping_add(BitBoard::from(7)), BitBoard::from(12));
    assert_eq!(BitBoard::from(7).wrapping_sub(BitBoard::from(5)), BitBoard::from(2));
    assert_eq!(BitBoard::from(6).wrapping_mul(BitBoard::from(7)), BitBoard::from(42));
}

#[test]
fn rotate_left_turns_the_word() {
    let bb = BitBoard::from(0x8000_0000_0000_0001);
    assert_eq!(bb.rotate_left(1), BitBoard::from(3));
    assert_eq!(bb.rotate_left(0), bb);
    assert_eq!(bb.rotate_left(64), bb);
    assert_eq!(bb.rotate_left(65), BitBoard::from(3));
    assert_eq!(
        BitBoard::from(0x0123_4567_89ab_cdef).rotate_left(56),
        BitBoard::from(0x0123_4567_89ab_cdefu64.rotate_left(56))
    );
    assert_eq!(
        BitBoard::from(0x0123_4567_89ab_cdef).rotate_left(72),
        BitBoard::from(0x0123_4567_89ab_cdefu64.rotate_left(72))
    );
}

#[test]
fn set_operations() {
    let a = BitBoard::from(0b1100);
    let b = BitBoard::from(0b1010);
    assert_eq!(a.union(b), BitBoard::from(0b1110));
    assert_eq!(a.intersection(b), BitBoard::from(0b1000));
    assert_eq!(a.complement(), BitBoard::from(!0b1100u64));
    assert_eq!(!a, BitBoard::from(!0b1100u64));
    let mut c = a;
    c |= b;
    assert_eq!(c, BitBoard::from(0b1110));
    c &= b;
    assert_eq!(c, BitBoard::from(0b1010));
    c |= 1u64;
    assert_eq!(c, BitBoard::from(0b1011));
}
