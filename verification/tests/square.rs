use chess_engine::board_repr::square::Square;

#[test]
fn test_get_by_index() {
    for n in 0u8..64 {
        let square = Square::get_by_index(n);
        let s = Square::get_by_index(square.index());
        assert!(s == square)
    }
}

#[test]
fn test_from_file_and_rank() {
    for n in 0u8..64 {
        let square = Square::get_by_index(n);
        let s = Square::from_file_and_rank(square.file(), square.rank());
        assert!(s == square)
    }
}

#[test]
fn rows_and_columns() {
    assert_eq!(Square::A8.index(), 0);
    assert_eq!(Square::H8.index(), 7);
    assert_eq!(Square::A1.index(), 56);
    assert_eq!(Square::H1.index(), 63);
    assert_eq!(Square::E4.index(), 36);
    assert_eq!(Square::E4.rank(), 4);
    assert_eq!(Square::E4.file(), 4);
    assert_eq!(Square::A8.rank(), 0);
    assert_eq!(Square::H1.rank(), 7);
    assert_eq!(Square::H1.file(), 7);
}

#[test]
fn steps_along_rows_and_columns() {
    assert_eq!(Square::E2.add_rank(-1), Square::E3);
    assert_eq!(Square::E2.add_rank(-2), Square::E4);
    assert_eq!(Square::E7.add_rank(1), Square::E6);
    assert_eq!(Square::E7.add_rank(2), Square::E5);
    assert_eq!(Square::E4.add_file(1), Square::F4);
    assert_eq!(Square::E4.add_file(-1), Square::D4);
    assert_eq!(Square::A1.add_file(7), Square::H1);
    assert_eq!(Square::E4.add_rank(0), Square::E4);
}

#[test]
fn the_table_of_one_bit_words() {
    let table = chess_engine::board_repr::square::init_bb_squares();
    for n in 0u8..64 {
        assert_eq!(table[n as usize], 1u64 << n);
        assert_eq!(Square::get_by_index(n).get_bitboard().value(), table[n as usize]);
    }
}
