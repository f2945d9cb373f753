use chess_engine::board_repr::bit_board::BitBoard;
use chess_engine::board_repr::piece::Color;
use chess_engine::board_repr::square::Square;
use chess_engine::move_generation::generator::MoveGenerator;
use chess_engine::move_generation::magics::{bishop_magic, rook_magic, Magic};
use chess_engine::move_generation::tables::{
    generate_bishop_attack, generate_bishop_attack_masks, generate_bishop_attacks,
    generate_blockers, generate_king_attack_masks, generate_knight_attack_masks,
    generate_pawn_attack_masks, generate_rook_attack, generate_rook_attack_masks,
    generate_rook_attacks, get_bishop_relevant_occupancy_mask, get_king_attack_mask,
    get_knight_attack_mask, get_pawn_attack_mask, get_rook_relevant_occupancy_mask,
};

fn set(squares: &[Square]) -> BitBoard {
    let mut bb = BitBoard::from(0);
    for square in squares {
        bb.set_bit_value(*square);
    }
    bb
}

#[test]
fn pawn_attacks_do_not_wrap_round_the_board() {
    assert_eq!(get_pawn_attack_mask(Color::White, Square::E4), set(&[Square::D5, Square::F5]));
    assert_eq!(get_pawn_attack_mask(Color::White, Square::A2), set(&[Square::B3]));
    assert_eq!(get_pawn_attack_mask(Color::White, Square::H2), set(&[Square::G3]));
    assert_eq!(get_pawn_attack_mask(Color::Black, Square::E5), set(&[Square::D4, Square::F4]));
    assert_eq!(get_pawn_attack_mask(Color::Black, Square::A7), set(&[Square::B6]));
    assert_eq!(get_pawn_attack_mask(Color::Black, Square::H7), set(&[Square::G6]));
    assert_eq!(get_pawn_attack_mask(Color::White, Square::E8), BitBoard::from(0));
    assert_eq!(get_pawn_attack_mask(Color::Black, Square::E1), BitBoard::from(0));
    assert_eq!(get_pawn_attack_mask(Color::Both, Square::E4), BitBoard::from(0));
}

#[test]
fn knight_attacks() {
    assert_eq!(get_knight_attack_mask(Square::A1), set(&[Square::B3, Square::C2]));
    assert_eq!(get_knight_attack_mask(Square::H8), set(&[Square::G6, Square::F7]));
    assert_eq!(
        get_knight_attack_mask(Square::E4),
        set(&[
            Square::D6,
            Square::F6,
            Square::C5,
            Square::G5,
            Square::C3,
            Square::G3,
            Square::D2,
            Square::F2
        ])
    );
    assert_eq!(
        get_knight_attack_mask(Square::B1),
        set(&[Square::A3, Square::C3, Square::D2])
    );
}

#[test]
fn king_attacks() {
    assert_eq!(
        get_king_attack_mask(Square::A1),
        set(&[Square::A2, Square::B2, Square::B1])
    );
    assert_eq!(
        get_king_attack_mask(Square::H8),
        set(&[Square::G8, Square::G7, Square::H7])
    );
    assert_eq!(
        get_king_attack_mask(Square::E4),
        set(&[
            Square::D5,
            Square::E5,
            Square::F5,
            Square::D4,
            Square::F4,
            Square::D3,
            Square::E3,
            Square::F3
        ])
    );
}

#[test]
fn the_tables_hold_the_masks_of_every_square() {
    let pawns = generate_pawn_attack_masks();
    let knights = generate_knight_attack_masks();
    let kings = generate_king_attack_masks();
    for n in 0u8..64 {
        let square = Square::get_by_index(n);
        assert_eq!(pawns[0][n as usize], get_pawn_attack_mask(Color::White, square));
        assert_eq!(pawns[1][n as usize], get_pawn_attack_mask(Color::Black, square));
        assert_eq!(knights[n as usize], get_knight_attack_mask(square));
        assert_eq!(kings[n as usize], get_king_attack_mask(square));
    }
}

#[test]
fn rook_attack_stops_at_the_first_blocker_and_holds_it() {
    let blockers = set(&[Square::E6, Square::G4, Square::E2, Square::E1]);
    assert_eq!(
        generate_rook_attack(Square::E4, blockers),
        set(&[
            Square::E5,
            Square::E6,
            Square::E3,
            Square::E2,
            Square::F4,
            Square::G4,
            Square::D4,
            Square::C4,
            Square::B4,
            Square::A4
        ])
    );
    assert_eq!(
        generate_rook_attack(Square::A1, BitBoard::from(0)),
        set(&[
            Square::A2,
            Square::A3,
            Square::A4,
            Square::A5,
            Square::A6,
            Square::A7,
            Square::A8,
            Square::B1,
            Square::C1,
            Square::D1,
            Square::E1,
            Square::F1,
            Square::G1,
            Square::H1
        ])
    );
}

#[test]
fn bishop_attack_stops_at_the_first_blocker_and_holds_it() {
    let blockers = set(&[Square::G6, Square::C2, Square::B1]);
    assert_eq!(
        generate_bishop_attack(Square::E4, blockers),
        set(&[
            Square::F5,
            Square::G6,
            Square::D5,
            Square::C6,
            Square::B7,
            Square::A8,
            Square::F3,
            Square::G2,
            Square::H1,
            Square::D3,
            Square::C2
        ])
    );
    assert_eq!(
        generate_bishop_attack(Square::H1, set(&[Square::H1])),
        set(&[
            Square::G2,
            Square::F3,
            Square::E4,
            Square::D5,
            Square::C6,
            Square::B7,
            Square::A8
        ])
    );
}

#[test]
fn relevant_masks_leave_out_the_edge() {
    assert_eq!(get_rook_relevant_occupancy_mask(Square::A1).count_ones(), 12);
    assert_eq!(get_rook_relevant_occupancy_mask(Square::E4).count_ones(), 10);
    assert_eq!(get_rook_relevant_occupancy_mask(Square::A4).count_ones(), 11);
    assert_eq!(get_bishop_relevant_occupancy_mask(Square::A1).count_ones(), 6);
    assert_eq!(get_bishop_relevant_occupancy_mask(Square::E4).count_ones(), 9);
    assert_eq!(get_bishop_relevant_occupancy_mask(Square::D4).count_ones(), 9);
    assert_eq!(
        get_rook_relevant_occupancy_mask(Square::E4),
        set(&[
            Square::E7,
            Square::E6,
            Square::E5,
            Square::E3,
            Square::E2,
            Square::B4,
            Square::C4,
            Square::D4,
            Square::F4,
            Square::G4
        ])
    );
    assert_eq!(
        get_bishop_relevant_occupancy_mask(Square::B2),
        set(&[Square::C3, Square::D4, Square::E5, Square::F6, Square::G7])
    );
}

#[test]
fn blockers_are_all_the_subsets_in_rising_order() {
    let mask = set(&[Square::B8, Square::D8, Square::A7]);
    let subsets = generate_blockers(mask);
    let values: Vec<u64> = subsets.iter().map(|b| b.value()).collect();
    assert_eq!(values, vec![0, 2, 8, 10, 256, 258, 264, 266]);
    assert_eq!(generate_blockers(BitBoard::from(0)).len(), 1);
    for n in 0u8..64 {
        let square = Square::get_by_index(n);
        let rook = get_rook_relevant_occupancy_mask(square);
        assert_eq!(generate_blockers(rook).len(), 1usize << rook.count_ones());
        let bishop = get_bishop_relevant_occupancy_mask(square);
        assert_eq!(generate_blockers(bishop).len(), 1usize << bishop.count_ones());
    }
}

#[test]
fn attacks_for_lists_of_blockers() {
    let blockers = vec![BitBoard::from(0), set(&[Square::E6]), set(&[Square::G6])];
    let rook = generate_rook_attacks(Square::E4, &blockers);
    let bishop = generate_bishop_attacks(Square::E4, &blockers);
    assert_eq!(rook.len(), 3);
    assert_eq!(bishop.len(), 3);
    for i in 0..3 {
        assert_eq!(rook[i], generate_rook_attack(Square::E4, blockers[i]));
        assert_eq!(bishop[i], generate_bishop_attack(Square::E4, blockers[i]));
    }
}

#[test]
fn the_hashed_tables_answer_with_the_ray_cast_attacks() {
    let mg = MoveGenerator::new().expect("tables");
    for n in 0u8..64 {
        let square = Square::get_by_index(n);
        for blockers in generate_blockers(get_rook_relevant_occupancy_mask(square)) {
            assert_eq!(
                mg.get_rook_attack(square, blockers),
                generate_rook_attack(square, blockers)
            );
        }
        for blockers in generate_blockers(get_bishop_relevant_occupancy_mask(square)) {
            assert_eq!(
                mg.get_bishop_attack(square, blockers),
                generate_bishop_attack(square, blockers)
            );
        }
    }
}

#[test]
fn blockers_outside_the_mask_do_not_change_the_answer() {
    let mg = MoveGenerator::new().expect("tables");
    let samples = [
        0u64,
        u64::MAX,
        0x0123_4567_89ab_cdef,
        0xfedc_ba98_7654_3210,
        0x00ff_0000_0000_ff00,
        0x8142_2418_1824_4281,
    ];
    for n in 0u8..64 {
        let square = Square::get_by_index(n);
        for sample in samples {
            let blockers = BitBoard::from(sample);
            assert_eq!(
                mg.get_rook_attack(square, blockers),
                generate_rook_attack(square, blockers)
            );
            assert_eq!(
                mg.get_bishop_attack(square, blockers),
                generate_bishop_attack(square, blockers)
            );
            assert_eq!(
                mg.get_queen_attack(square, blockers),
                generate_rook_attack(square, blockers).union(generate_bishop_attack(square, blockers))
            );
        }
    }
}

#[test]
fn table_sizes_and_entries() {
    let (rook, rook_magics) = generate_rook_attack_masks().expect("rook table");
    let (bishop, bishop_magics) = generate_bishop_attack_masks().expect("bishop table");
    assert_eq!(rook.len(), 102400);
    assert_eq!(bishop.len(), 5248);
    let mut offset = 0usize;
    for n in 0u8..64 {
        let square = Square::get_by_index(n);
        let entry = rook_magics[n as usize];
        let mask = get_rook_relevant_occupancy_mask(square);
        assert_eq!(entry.mask, mask);
        assert_eq!(entry.magic, rook_magic(square));
        assert_eq!(entry.shift, 64 - mask.count_ones());
        assert_eq!(entry.offset, offset);
        offset += 1usize << mask.count_ones();
    }
    assert_eq!(bishop_magics[0].offset, 0);
    assert_eq!(bishop_magics[0].magic, bishop_magic(Square::A8));
    assert_eq!(bishop_magics[1].offset, 64);
}

#[test]
fn index_of_an_entry() {
    let entry = Magic { mask: BitBoard::from(0xff), magic: 1 << 56, shift: 56, offset: 100 };
    assert_eq!(entry.index(BitBoard::from(0)), 100);
    assert_eq!(entry.index(BitBoard::from(0x01)), 101);
    assert_eq!(entry.index(BitBoard::from(0xff)), 355);
    assert_eq!(entry.index(BitBoard::from(0xff00)), 100);
    assert_eq!(entry.index(BitBoard::from(0x1234_5678_9abc_de03)), 103);
}

#[test]
fn leaper_lookups() {
    let mg = MoveGenerator::new().expect("tables");
    for n in 0u8..64 {
        let square = Square::get_by_index(n);
        assert_eq!(mg.get_king_attack(square), get_king_attack_mask(square));
        assert_eq!(mg.get_knight_attack(square), get_knight_attack_mask(square));
        assert_eq!(
            mg.get_pawn_attack(square, Color::White),
            get_pawn_attack_mask(Color::White, square)
        );
        assert_eq!(
            mg.get_pawn_attack(square, Color::Black),
            get_pawn_attack_mask(Color::Black, square)
        );
    }
}
