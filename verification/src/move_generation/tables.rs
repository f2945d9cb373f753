use vstd::prelude::*;
use crate::board_repr::bit_board::bit;
use crate::board_repr::bit_board::bit_set;
use crate::board_repr::bit_board::lemma_bit_ops;
use crate::board_repr::bit_board::lemma_bit_single;
use crate::board_repr::bit_board::lemma_bit_zero;
use crate::board_repr::bit_board::lemma_bits_equal;
use crate::board_repr::bit_board::popcount;
use super::magics::bishop_magic;
use super::magics::bishop_magic_of;
use super::magics::hash_of;
use super::magics::rook_magic;
use super::magics::rook_magic_of;
use super::magics::Magic;
use crate::board_repr::bit_board::BitBoard;
use crate::board_repr::geometry::bishop_rel;
use crate::board_repr::geometry::bits_where;
use crate::board_repr::geometry::cell;
use crate::board_repr::geometry::col;
use crate::board_repr::geometry::dist;
use crate::board_repr::geometry::is_direction;
use crate::board_repr::geometry::king_rel;
use crate::board_repr::geometry::knight_rel;
use crate::board_repr::geometry::lemma_bits_where;
use crate::board_repr::geometry::on_board;
use crate::board_repr::geometry::pawn_rel;
use crate::board_repr::geometry::ray_cell;
use crate::board_repr::geometry::ray_rel;
use crate::board_repr::geometry::rook_rel;
use crate::board_repr::geometry::row;
use crate::board_repr::geometry::scaled;
use crate::board_repr::piece::Color;
use crate::board_repr::square::Square;

verus! {

/// Every square but those of the a-file.
pub const NOT_A_FILE: u64 = 0xfefefefefefefefe;

/// Every square but those of the h-file.
pub const NOT_H_FILE: u64 = 0x7f7f7f7f7f7f7f7f;

/// Every square but those of the a- and b-files.
pub const NOT_AB_FILE: u64 = 0xfcfcfcfcfcfcfcfc;

/// Every square but those of the g- and h-files.
pub const NOT_GH_FILE: u64 = 0x3f3f3f3f3f3f3f3f;

/// The squares a pawn attacks from square `s`, by shifts of its one-bit word.
pub open spec fn pawn_word(white: bool, s: u64) -> u64 {
    let b = 1u64 << s;
    if white {
        (if b & NOT_A_FILE != 0 {
            b >> 9
        } else {
            0
        }) | (if b & NOT_H_FILE != 0 {
            b >> 7
        } else {
            0
        })
    } else {
        (if b & NOT_H_FILE != 0 {
            b << 9
        } else {
            0
        }) | (if b & NOT_A_FILE != 0 {
            b << 7
        } else {
            0
        })
    }
}

/// The squares a knight attacks from square `s`, by shifts of its one-bit word.
pub open spec fn knight_word(s: u64) -> u64 {
    let b = 1u64 << s;
    (if b & NOT_A_FILE != 0 {
        (b >> 17) | (b << 15)
    } else {
        0
    }) | (if b & NOT_H_FILE != 0 {
        (b >> 15) | (b << 17)
    } else {
        0
    }) | (if b & NOT_AB_FILE != 0 {
        (b >> 10) | (b << 6)
    } else {
        0
    }) | (if b & NOT_GH_FILE != 0 {
        (b >> 6) | (b << 10)
    } else {
        0
    })
}

/// The squares a king attacks from square `s`, by shifts of its one-bit word.
pub open spec fn king_word(s: u64) -> u64 {
    let b = 1u64 << s;
    (if b & NOT_A_FILE != 0 {
        (b >> 1) | (b >> 9) | (b << 7)
    } else {
        0
    }) | (if b & NOT_H_FILE != 0 {
        (b << 1) | (b >> 7) | (b << 9)
    } else {
        0
    }) | (b >> 8) | (b << 8)
}

proof fn lemma_pawn_word(s: u64, t: u64)
    by (bit_vector)
    requires
        s < 64,
        t < 64,
    ensures
        bit_set(pawn_word(true, s), t) == ((t / 8) + 1 == s / 8 && ((t % 8) + 1 == s % 8 || (s % 8)
            + 1 == t % 8)),
        bit_set(pawn_word(false, s), t) == ((s / 8) + 1 == t / 8 && ((t % 8) + 1 == s % 8 || (s
            % 8) + 1 == t % 8)),
{
}

proof fn lemma_knight_word(s: u64, t: u64)
    by (bit_vector)
    requires
        s < 64,
        t < 64,
    ensures
        bit_set(knight_word(s), t) == ((((t / 8) + 1 == s / 8 || (s / 8) + 1 == t / 8) && ((t % 8)
            + 2 == s % 8 || (s % 8) + 2 == t % 8)) || (((t / 8) + 2 == s / 8 || (s / 8) + 2 == t
            / 8) && ((t % 8) + 1 == s % 8 || (s % 8) + 1 == t % 8))),
{
}

proof fn lemma_king_word(s: u64, t: u64)
    by (bit_vector)
    requires
        s < 64,
        t < 64,
    ensures
        bit_set(king_word(s), t) == (s != t && t / 8 <= (s / 8) + 1 && s / 8 <= (t / 8) + 1 && t
            % 8 <= (s % 8) + 1 && s % 8 <= (t % 8) + 1),
{
}

/// The pawn word of a square holds exactly the squares that a pawn attacks from it.
pub proof fn lemma_pawn_attacks(white: bool, s: int)
    requires
        on_board(s),
    ensures
        forall|t: int|
            #[trigger] bit(pawn_word(white, s as u64), t) == pawn_rel(
                if white {
                    Color::White
                } else {
                    Color::Black
                },
                s,
                t,
            ),
{
    assert forall|t: int|
        #[trigger] bit(pawn_word(white, s as u64), t) == pawn_rel(
            if white {
                Color::White
            } else {
                Color::Black
            },
            s,
            t,
        ) by {
        if on_board(t) {
            lemma_pawn_word(s as u64, t as u64);
        }
    }
}

/// The knight word of a square holds exactly the squares that a knight attacks from it.
pub proof fn lemma_knight_attacks(s: int)
    requires
        on_board(s),
    ensures
        forall|t: int| #[trigger] bit(knight_word(s as u64), t) == knight_rel(s, t),
{
    assert forall|t: int| #[trigger] bit(knight_word(s as u64), t) == knight_rel(s, t) by {
        if on_board(t) {
            lemma_knight_word(s as u64, t as u64);
        }
    }
}

/// The king word of a square holds exactly the squares that a king attacks from it.
pub proof fn lemma_king_attacks(s: int)
    requires
        on_board(s),
    ensures
        forall|t: int| #[trigger] bit(king_word(s as u64), t) == king_rel(s, t),
{
    assert forall|t: int| #[trigger] bit(king_word(s as u64), t) == king_rel(s, t) by {
        if on_board(t) {
            lemma_king_word(s as u64, t as u64);
        }
    }
}

pub fn get_pawn_attack_mask(color: Color, square: Square) -> (r: BitBoard)
    ensures
        color == Color::White ==> r.0 == pawn_word(true, square.ord() as u64),
        color == Color::Black ==> r.0 == pawn_word(false, square.ord() as u64),
        forall|t: int| #[trigger] bit(r.0, t) == pawn_rel(color, square.ord(), t),
{
    let b: u64 = square.get_bitboard().value();
    proof {
        lemma_bit_zero(0);
        lemma_pawn_attacks(true, square.ord());
        lemma_pawn_attacks(false, square.ord());
    }
    match color {
        Color::White => {
            let left: u64 = if b & NOT_A_FILE != 0 { b >> 9 } else { 0 };
            let right: u64 = if b & NOT_H_FILE != 0 { b >> 7 } else { 0 };
            BitBoard::from(left | right)
        },
        Color::Black => {
            let right: u64 = if b & NOT_H_FILE != 0 { b << 9 } else { 0 };
            let left: u64 = if b & NOT_A_FILE != 0 { b << 7 } else { 0 };
            BitBoard::from(right | left)
        },
        Color::Both => BitBoard::from(0),
    }
}

pub fn get_knight_attack_mask(square: Square) -> (r: BitBoard)
    ensures
        r.0 == knight_word(square.ord() as u64),
        forall|t: int| #[trigger] bit(r.0, t) == knight_rel(square.ord(), t),
{
    let b: u64 = square.get_bitboard().value();
    proof {
        lemma_knight_attacks(square.ord());
    }
    let a: u64 = if b & NOT_A_FILE != 0 { (b >> 17) | (b << 15) } else { 0 };
    let h: u64 = if b & NOT_H_FILE != 0 { (b >> 15) | (b << 17) } else { 0 };
    let ab: u64 = if b & NOT_AB_FILE != 0 { (b >> 10) | (b << 6) } else { 0 };
    let gh: u64 = if b & NOT_GH_FILE != 0 { (b >> 6) | (b << 10) } else { 0 };
    BitBoard::from(a | h | ab | gh)
}

pub fn get_king_attack_mask(square: Square) -> (r: BitBoard)
    ensures
        r.0 == king_word(square.ord() as u64),
        forall|t: int| #[trigger] bit(r.0, t) == king_rel(square.ord(), t),
{
    let b: u64 = square.get_bitboard().value();
    proof {
        lemma_king_attacks(square.ord());
    }
    let a: u64 = if b & NOT_A_FILE != 0 { (b >> 1) | (b >> 9) | (b << 7) } else { 0 };
    let h: u64 = if b & NOT_H_FILE != 0 { (b << 1) | (b >> 7) | (b << 9) } else { 0 };
    BitBoard::from(a | h | (b >> 8) | (b << 8))
}

/// The pawn attacks from every square: the first table is White's, the second Black's.
pub fn generate_pawn_attack_masks() -> (r: [[BitBoard; 64]; 2])
    ensures
        forall|s: int, t: int|
            0 <= s < 64 ==> #[trigger] bit(r[0][s].0, t) == pawn_rel(Color::White, s, t),
        forall|s: int, t: int|
            0 <= s < 64 ==> #[trigger] bit(r[1][s].0, t) == pawn_rel(Color::Black, s, t),
{
    let mut white = [BitBoard::from(0);64];
    let mut black = [BitBoard::from(0);64];
    let mut i: u8 = 0;
    while i < 64
        invariant
            i <= 64,
            forall|s: int, t: int|
                0 <= s < i ==> #[trigger] bit(white[s].0, t) == pawn_rel(Color::White, s, t),
            forall|s: int, t: int|
                0 <= s < i ==> #[trigger] bit(black[s].0, t) == pawn_rel(Color::Black, s, t),
        decreases 64 - i,
    {
        let square = Square::get_by_index(i);
        white[i as usize] = get_pawn_attack_mask(Color::White, square);
        black[i as usize] = get_pawn_attack_mask(Color::Black, square);
        i += 1;
    }
    [white, black]
}

pub fn generate_knight_attack_masks() -> (r: [BitBoard; 64])
    ensures
        forall|s: int, t: int| 0 <= s < 64 ==> #[trigger] bit(r[s].0, t) == knight_rel(s, t),
{
    let mut table = [BitBoard::from(0);64];
    let mut i: u8 = 0;
    while i < 64
        invariant
            i <= 64,
            forall|s: int, t: int| 0 <= s < i ==> #[trigger] bit(table[s].0, t) == knight_rel(s, t),
        decreases 64 - i,
    {
        table[i as usize] = get_knight_attack_mask(Square::get_by_index(i));
        i += 1;
    }
    table
}

pub fn generate_king_attack_masks() -> (r: [BitBoard; 64])
    ensures
        forall|s: int, t: int| 0 <= s < 64 ==> #[trigger] bit(r[s].0, t) == king_rel(s, t),
{
    let mut table = [BitBoard::from(0);64];
    let mut i: u8 = 0;
    while i < 64
        invariant
            i <= 64,
            forall|s: int, t: int| 0 <= s < i ==> #[trigger] bit(table[s].0, t) == king_rel(s, t),
        decreases 64 - i,
    {
        table[i as usize] = get_king_attack_mask(Square::get_by_index(i));
        i += 1;
    }
    table
}

/// The squares that a rook on `s` attacks, with the given squares in the way.
pub open spec fn rook_word(s: int, blockers: u64) -> u64 {
    bits_where(|t: int| rook_rel(s, t, blockers))
}

/// The squares that a bishop on `s` attacks, with the given squares in the way.
pub open spec fn bishop_word(s: int, blockers: u64) -> u64 {
    bits_where(|t: int| bishop_rel(s, t, blockers))
}

/// The slider words hold exactly the squares of their relations.
pub proof fn lemma_slider_words(s: int, blockers: u64)
    ensures
        forall|t: int| #[trigger] bit(rook_word(s, blockers), t) == rook_rel(s, t, blockers),
        forall|t: int| #[trigger] bit(bishop_word(s, blockers), t) == bishop_rel(s, t, blockers),
{
    lemma_bits_where(|t: int| rook_rel(s, t, blockers));
    lemma_bits_where(|t: int| bishop_rel(s, t, blockers));
}

/// Walks from `square` in one direction and collects the squares passed,
/// up to and including the first one that is in `blocker`.
fn cast_ray(square: Square, blocker: BitBoard, dr: i8, dc: i8) -> (r: BitBoard)
    requires
        is_direction(dr as int, dc as int),
    ensures
        forall|t: int|
            #[trigger] bit(r.0, t) == ray_rel(square.ord(), t, blocker.0, dr as int, dc as int),
{
    let ghost s = square.ord();
    let ghost b = blocker.0;
    let mut acc: u64 = 0;
    let mut r: i8 = square.rank() as i8 + dr;
    let mut c: i8 = square.file() as i8 + dc;
    let mut open = true;
    let ghost mut k: int = 1;
    proof {
        lemma_bit_zero(0);
    }
    while open && 0 <= r && r < 8 && 0 <= c && c < 8
        invariant
            is_direction(dr as int, dc as int),
            s == square.ord(),
            b == blocker.0,
            on_board(s),
            1 <= k <= 9,
            open ==> r == row(s) + scaled(dr as int, k) && c == col(s) + scaled(dc as int, k),
            open ==> forall|j: int| 0 < j < k ==> !bit(b, #[trigger] ray_cell(s, dr as int, dc as int, j)),
            !open ==> forall|t: int| #[trigger]
                ray_rel(s, t, b, dr as int, dc as int) ==> dist(s, t) < k,
            forall|t: int|
                #[trigger] bit(acc, t) == (ray_rel(s, t, b, dr as int, dc as int) && dist(s, t)
                    < k),
        decreases (if open { 1int } else { 0int }), 9 - k,
    {
        let q: u8 = (r as u8) * 8 + (c as u8);
        let ghost old_acc = acc;
        proof {
            assert(q as int == ray_cell(s, dr as int, dc as int, k));
            assert(dist(s, q as int) == k);
            lemma_bit_ops(acc, 1u64 << q);
            lemma_bit_single(q as int);
        }
        acc = acc | (1u64 << q);
        let hit = blocker.0 & (1u64 << q) != 0;
        proof {
            assert(hit == bit(b, q as int));
            assert(ray_rel(s, q as int, b, dr as int, dc as int));
            assert forall|t: int|
                #[trigger] bit(acc, t) == (ray_rel(s, t, b, dr as int, dc as int) && dist(s, t)
                    < k + 1) by {
                assert(bit(acc, t) == (bit(old_acc, t) || t == q));
                if ray_rel(s, t, b, dr as int, dc as int) && dist(s, t) == k {
                    assert(t == cell(row(t), col(t)));
                    assert(t == q);
                }
            }
            if hit {
                assert forall|t: int| #[trigger]
                    ray_rel(s, t, b, dr as int, dc as int) implies dist(s, t) < k + 1 by {
                    if dist(s, t) >= k + 1 {
                        assert(!bit(b, ray_cell(s, dr as int, dc as int, k)));
                    }
                }
            } else {
                assert forall|j: int| 0 < j < k + 1 implies !bit(
                    b,
                    #[trigger] ray_cell(s, dr as int, dc as int, j),
                ) by {
                    if j == k {
                    }
                }
            }
        }
        if hit {
            open = false;
        } else {
            r = r + dr;
            c = c + dc;
        }
        proof {
            k = k + 1;
        }
    }
    proof {
        assert forall|t: int|
            #[trigger] bit(acc, t) == ray_rel(s, t, b, dr as int, dc as int) by {
            if ray_rel(s, t, b, dr as int, dc as int) && open {
                assert(dist(s, t) < k);
            }
        }
    }
    BitBoard::from(acc)
}

pub fn generate_rook_attack(square: Square, blocker: BitBoard) -> (r: BitBoard)
    ensures
        r.0 == rook_word(square.ord(), blocker.0),
        forall|t: int| #[trigger] bit(r.0, t) == rook_rel(square.ord(), t, blocker.0),
{
    let up = cast_ray(square, blocker, -1, 0);
    let down = cast_ray(square, blocker, 1, 0);
    let left = cast_ray(square, blocker, 0, -1);
    let right = cast_ray(square, blocker, 0, 1);
    let r = up.union(down).union(left).union(right);
    proof {
        lemma_slider_words(square.ord(), blocker.0);
        assert forall|t: int| #[trigger] bit(r.0, t) == rook_rel(square.ord(), t, blocker.0) by {
            assert(bit(r.0, t) == (bit(up.0, t) || bit(down.0, t) || bit(left.0, t) || bit(
                right.0,
                t,
            )));
        }
        lemma_bits_equal(r.0, rook_word(square.ord(), blocker.0));
    }
    r
}

pub fn generate_bishop_attack(square: Square, blocker: BitBoard) -> (r: BitBoard)
    ensures
        r.0 == bishop_word(square.ord(), blocker.0),
        forall|t: int| #[trigger] bit(r.0, t) == bishop_rel(square.ord(), t, blocker.0),
{
    let a = cast_ray(square, blocker, -1, 1);
    let b = cast_ray(square, blocker, -1, -1);
    let c = cast_ray(square, blocker, 1, 1);
    let d = cast_ray(square, blocker, 1, -1);
    let r = a.union(b).union(c).union(d);
    proof {
        lemma_slider_words(square.ord(), blocker.0);
        assert forall|t: int| #[trigger] bit(r.0, t) == bishop_rel(square.ord(), t, blocker.0) by {
            assert(bit(r.0, t) == (bit(a.0, t) || bit(b.0, t) || bit(c.0, t) || bit(d.0, t)));
        }
        lemma_bits_equal(r.0, bishop_word(square.ord(), blocker.0));
    }
    r
}

/// The rook attacks for each of the given blocker sets, in their order.
pub fn generate_rook_attacks(square: Square, blockers: &Vec<BitBoard>) -> (r: Vec<BitBoard>)
    ensures
        r.len() == blockers.len(),
        forall|i: int|
            0 <= i < r.len() ==> (#[trigger] r[i]).0 == rook_word(square.ord(), blockers[i].0),
{
    let mut attacks: Vec<BitBoard> = Vec::new();
    let mut i: usize = 0;
    while i < blockers.len()
        invariant
            i <= blockers.len(),
            attacks.len() == i,
            forall|j: int|
                0 <= j < i ==> (#[trigger] attacks[j]).0 == rook_word(
                    square.ord(),
                    blockers[j].0,
                ),
        decreases blockers.len() - i,
    {
        attacks.push(generate_rook_attack(square, blockers[i]));
        i += 1;
    }
    attacks
}

/// The bishop attacks for each of the given blocker sets, in their order.
pub fn generate_bishop_attacks(square: Square, blockers: &Vec<BitBoard>) -> (r: Vec<BitBoard>)
    ensures
        r.len() == blockers.len(),
        forall|i: int|
            0 <= i < r.len() ==> (#[trigger] r[i]).0 == bishop_word(square.ord(), blockers[i].0),
{
    let mut attacks: Vec<BitBoard> = Vec::new();
    let mut i: usize = 0;
    while i < blockers.len()
        invariant
            i <= blockers.len(),
            attacks.len() == i,
            forall|j: int|
                0 <= j < i ==> (#[trigger] attacks[j]).0 == bishop_word(
                    square.ord(),
                    blockers[j].0,
                ),
        decreases blockers.len() - i,
    {
        attacks.push(generate_bishop_attack(square, blockers[i]));
        i += 1;
    }
    attacks
}

/// `q` lies on the ray from `s` in direction `(dr, dc)` and is not the last
/// square of that ray: one more step still ends on the board.
pub open spec fn inner_rel(s: int, q: int, dr: int, dc: int) -> bool {
    &&& on_board(s)
    &&& on_board(q)
    &&& dist(s, q) >= 1
    &&& row(q) == row(s) + scaled(dr, dist(s, q))
    &&& col(q) == col(s) + scaled(dc, dist(s, q))
    &&& 0 <= row(q) + dr <= 7
    &&& 0 <= col(q) + dc <= 7
}

/// The squares whose occupancy can change what a rook on `s` attacks.
pub open spec fn rook_mask_rel(s: int, q: int) -> bool {
    inner_rel(s, q, -1, 0) || inner_rel(s, q, 1, 0) || inner_rel(s, q, 0, -1) || inner_rel(
        s,
        q,
        0,
        1,
    )
}

/// The squares whose occupancy can change what a bishop on `s` attacks.
pub open spec fn bishop_mask_rel(s: int, q: int) -> bool {
    inner_rel(s, q, -1, 1) || inner_rel(s, q, -1, -1) || inner_rel(s, q, 1, 1) || inner_rel(
        s,
        q,
        1,
        -1,
    )
}

/// The relevant-occupancy mask of a rook on `s`.
pub open spec fn rook_mask_word(s: int) -> u64 {
    bits_where(|q: int| rook_mask_rel(s, q))
}

/// The relevant-occupancy mask of a bishop on `s`.
pub open spec fn bishop_mask_word(s: int) -> u64 {
    bits_where(|q: int| bishop_mask_rel(s, q))
}

/// The mask words hold exactly the squares of their relations.
pub proof fn lemma_mask_words(s: int)
    ensures
        forall|q: int| #[trigger] bit(rook_mask_word(s), q) == rook_mask_rel(s, q),
        forall|q: int| #[trigger] bit(bishop_mask_word(s), q) == bishop_mask_rel(s, q),
{
    lemma_bits_where(|q: int| rook_mask_rel(s, q));
    lemma_bits_where(|q: int| bishop_mask_rel(s, q));
}

proof fn lemma_ray_masked(s: int, t: int, b: u64, m: u64, dr: int, dc: int)
    requires
        is_direction(dr, dc),
        forall|q: int| inner_rel(s, q, dr, dc) ==> #[trigger] bit(m, q),
    ensures
        ray_rel(s, t, b, dr, dc) == ray_rel(s, t, b & m, dr, dc),
{
    lemma_bit_ops(b, m);
    if on_board(s) && on_board(t) && dist(s, t) >= 1 && row(t) == row(s) + scaled(dr, dist(s, t))
        && col(t) == col(s) + scaled(dc, dist(s, t)) {
        assert forall|k: int| 0 < k < dist(s, t) implies bit(
            b,
            #[trigger] ray_cell(s, dr, dc, k),
        ) == bit(b & m, ray_cell(s, dr, dc, k)) by {
            let q = ray_cell(s, dr, dc, k);
            assert(dist(s, q) == k);
            assert(inner_rel(s, q, dr, dc));
            assert(bit(m, q));
        }
    }
}

/// Blockers outside the relevant-occupancy mask change nothing: the attack
/// set of the whole blocker set is that of its part inside the mask.
pub proof fn lemma_mask_suffices(s: int, b: u64)
    ensures
        rook_word(s, b) == rook_word(s, b & rook_mask_word(s)),
        bishop_word(s, b) == bishop_word(s, b & bishop_mask_word(s)),
{
    lemma_mask_words(s);
    let rm = rook_mask_word(s);
    let bm = bishop_mask_word(s);
    lemma_slider_words(s, b);
    lemma_slider_words(s, b & rm);
    lemma_slider_words(s, b & bm);
    assert forall|t: int| bit(rook_word(s, b), t) == bit(rook_word(s, b & rm), t) by {
        lemma_ray_masked(s, t, b, rm, -1, 0);
        lemma_ray_masked(s, t, b, rm, 1, 0);
        lemma_ray_masked(s, t, b, rm, 0, -1);
        lemma_ray_masked(s, t, b, rm, 0, 1);
    }
    lemma_bits_equal(rook_word(s, b), rook_word(s, b & rm));
    assert forall|t: int| bit(bishop_word(s, b), t) == bit(bishop_word(s, b & bm), t) by {
        lemma_ray_masked(s, t, b, bm, -1, 1);
        lemma_ray_masked(s, t, b, bm, -1, -1);
        lemma_ray_masked(s, t, b, bm, 1, 1);
        lemma_ray_masked(s, t, b, bm, 1, -1);
    }
    lemma_bits_equal(bishop_word(s, b), bishop_word(s, b & bm));
}

/// Walks from `square` in one direction and collects the squares passed,
/// leaving out the last square before the edge.
fn walk_inner(square: Square, dr: i8, dc: i8) -> (r: BitBoard)
    requires
        is_direction(dr as int, dc as int),
    ensures
        forall|q: int| #[trigger] bit(r.0, q) == inner_rel(square.ord(), q, dr as int, dc as int),
{
    let ghost s = square.ord();
    let mut acc: u64 = 0;
    let mut r: i8 = square.rank() as i8 + dr;
    let mut c: i8 = square.file() as i8 + dc;
    let ghost mut k: int = 1;
    proof {
        lemma_bit_zero(0);
    }
    while 0 <= r + dr && r + dr < 8 && 0 <= c + dc && c + dc < 8
        invariant
            is_direction(dr as int, dc as int),
            s == square.ord(),
            on_board(s),
            1 <= k <= 9,
            r == row(s) + scaled(dr as int, k),
            c == col(s) + scaled(dc as int, k),
            -1 <= r <= 8,
            -1 <= c <= 8,
            forall|t: int|
                #[trigger] bit(acc, t) == (inner_rel(s, t, dr as int, dc as int) && dist(s, t) < k),
        decreases 9 - k,
    {
        let q: u8 = (r as u8) * 8 + (c as u8);
        let ghost old_acc = acc;
        proof {
            assert(q as int == ray_cell(s, dr as int, dc as int, k));
            assert(dist(s, q as int) == k);
            lemma_bit_ops(acc, 1u64 << q);
            lemma_bit_single(q as int);
        }
        acc = acc | (1u64 << q);
        proof {
            assert(inner_rel(s, q as int, dr as int, dc as int));
            assert forall|t: int|
                #[trigger] bit(acc, t) == (inner_rel(s, t, dr as int, dc as int) && dist(s, t) < k
                    + 1) by {
                assert(bit(acc, t) == (bit(old_acc, t) || t == q));
                if inner_rel(s, t, dr as int, dc as int) && dist(s, t) == k {
                    assert(t == cell(row(t), col(t)));
                    assert(t == q);
                }
            }
            k = k + 1;
        }
        r = r + dr;
        c = c + dc;
    }
    BitBoard::from(acc)
}

pub fn get_rook_relevant_occupancy_mask(square: Square) -> (r: BitBoard)
    ensures
        r.0 == rook_mask_word(square.ord()),
        forall|q: int| #[trigger] bit(r.0, q) == rook_mask_rel(square.ord(), q),
{
    let up = walk_inner(square, -1, 0);
    let down = walk_inner(square, 1, 0);
    let left = walk_inner(square, 0, -1);
    let right = walk_inner(square, 0, 1);
    let r = up.union(down).union(left).union(right);
    proof {
        lemma_mask_words(square.ord());
        assert forall|q: int| #[trigger] bit(r.0, q) == rook_mask_rel(square.ord(), q) by {
            assert(bit(r.0, q) == (bit(up.0, q) || bit(down.0, q) || bit(left.0, q) || bit(
                right.0,
                q,
            )));
        }
        lemma_bits_equal(r.0, rook_mask_word(square.ord()));
    }
    r
}

pub fn get_bishop_relevant_occupancy_mask(square: Square) -> (r: BitBoard)
    ensures
        r.0 == bishop_mask_word(square.ord()),
        forall|q: int| #[trigger] bit(r.0, q) == bishop_mask_rel(square.ord(), q),
{
    let a = walk_inner(square, -1, 1);
    let b = walk_inner(square, -1, -1);
    let c = walk_inner(square, 1, 1);
    let d = walk_inner(square, 1, -1);
    let r = a.union(b).union(c).union(d);
    proof {
        lemma_mask_words(square.ord());
        assert forall|q: int| #[trigger] bit(r.0, q) == bishop_mask_rel(square.ord(), q) by {
            assert(bit(r.0, q) == (bit(a.0, q) || bit(b.0, q) || bit(c.0, q) || bit(d.0, q)));
        }
        lemma_bits_equal(r.0, bishop_mask_word(square.ord()));
    }
    r
}

/// Whether `sub` has no bit outside `mask`.
pub open spec fn is_subset(sub: u64, mask: u64) -> bool {
    sub & !mask == 0
}

/// Whether `word` is one of the sets in the list.
pub open spec fn listed(list: Seq<BitBoard>, word: u64) -> bool {
    exists|i: int| 0 <= i < list.len() && (#[trigger] list[i]).0 == word
}

proof fn lemma_next_subset(n: u64, d: u64, sub: u64)
    by (bit_vector)
    requires
        n & !d == 0,
        sub & !d == 0,
        sub > n,
    ensures
        ((n.wrapping_sub(d)) & d) > n,
        ((n.wrapping_sub(d)) & d) <= sub,
{
}

proof fn lemma_subset_facts(n: u64, d: u64)
    by (bit_vector)
    ensures
        ((n.wrapping_sub(d)) & d) & !d == 0,
        0u64 & !d == 0,
        d & !d == 0,
        (n & d) & !d == 0,
        (n & d) & d == n & d,
        n & !d == 0 ==> n <= d,
        n & !d == 0 ==> n & d == n,
{
}

/// Every subset of `mask`, each once, from the empty set upwards in the order
/// of the words: each one is the one before minus the mask, cut to the mask.
pub fn generate_blockers(mask: BitBoard) -> (r: Vec<BitBoard>)
    ensures
        r.len() >= 1,
        r[0].0 == 0,
        forall|i: int| 0 <= i < r.len() ==> is_subset((#[trigger] r[i]).0, mask.0),
        forall|i: int, j: int| 0 <= i < j < r.len() ==> (#[trigger] r[i]).0 < (#[trigger] r[j]).0,
        forall|sub: u64| is_subset(sub, mask.0) ==> #[trigger] listed(r@, sub),
{
    let d: u64 = mask.0;
    let mut out: Vec<BitBoard> = Vec::new();
    let mut n: u64 = 0;
    let mut done = false;
    proof {
        lemma_subset_facts(0, d);
    }
    while !done
        invariant
            d == mask.0,
            is_subset(n, d),
            !done ==> forall|i: int| 0 <= i < out.len() ==> (#[trigger] out[i]).0 < n,
            !done ==> forall|sub: u64| is_subset(sub, d) && sub < n ==> #[trigger] listed(out@, sub),
            done ==> out.len() >= 1,
            done ==> forall|sub: u64| is_subset(sub, d) ==> #[trigger] listed(out@, sub),
            out.len() >= 1 ==> out[0].0 == 0,
            out.len() == 0 ==> n == 0,
            forall|i: int| 0 <= i < out.len() ==> is_subset((#[trigger] out[i]).0, d),
            forall|i: int, j: int|
                0 <= i < j < out.len() ==> (#[trigger] out[i]).0 < (#[trigger] out[j]).0,
        decreases (if done { 0int } else { 1int }), d - n,
    {
        let ghost before = out@;
        out.push(BitBoard::from(n));
        let next: u64 = n.wrapping_sub(d) & d;
        proof {
            lemma_subset_facts(n, d);
            lemma_subset_facts(next, d);
            assert(out@[before.len() as int].0 == n);
            assert forall|sub: u64| is_subset(sub, d) && sub <= n implies #[trigger] listed(
                out@,
                sub,
            ) by {
                if sub < n {
                    assert(listed(before, sub));
                    let i = choose|i: int| 0 <= i < before.len() && (#[trigger] before[i]).0 == sub;
                    assert(out@[i].0 == sub);
                } else {
                    assert(out@[before.len() as int].0 == sub);
                }
            }
            assert forall|sub: u64| is_subset(sub, d) && sub > n implies next > n && next
                <= sub by {
                lemma_next_subset(n, d, sub);
            }
            if next != 0 {
                if n != d {
                    lemma_next_subset(n, d, d);
                }
                assert(next > n) by {
                    if n == d {
                        lemma_same_is_empty(d);
                    }
                }
            }
        }
        if next == 0 {
            done = true;
        } else {
            n = next;
        }
    }
    out
}

proof fn lemma_same_is_empty(d: u64)
    by (bit_vector)
    ensures
        ((d.wrapping_sub(d)) & d) == 0,
{
}

/// The attack set of a rook (`rook`) or a bishop on `s`.
pub open spec fn slider_word(rook: bool, s: int, blockers: u64) -> u64 {
    if rook {
        rook_word(s, blockers)
    } else {
        bishop_word(s, blockers)
    }
}

/// The relevant-occupancy mask of a rook (`rook`) or a bishop on `s`.
pub open spec fn slider_mask(rook: bool, s: int) -> u64 {
    if rook {
        rook_mask_word(s)
    } else {
        bishop_mask_word(s)
    }
}

/// The multiplier of a rook (`rook`) or a bishop on `s`.
pub open spec fn slider_magic(rook: bool, s: int) -> u64 {
    if rook {
        rook_magic_of(s)
    } else {
        bishop_magic_of(s)
    }
}

/// The multiplier of square `s` does its work: the mask has between one and
/// sixteen squares, and two subsets of the mask that hash to the same place
/// have the same attack set.
pub open spec fn magic_fits(rook: bool, s: int) -> bool {
    let mask = slider_mask(rook, s);
    let bits = popcount(mask);
    &&& 1 <= bits <= 16
    &&& forall|a: u64, b: u64|
        is_subset(a, mask) && is_subset(b, mask) && #[trigger] hash_of(
            a,
            slider_magic(rook, s),
            (64 - bits) as u32,
        ) == #[trigger] hash_of(b, slider_magic(rook, s), (64 - bits) as u32) ==> slider_word(
            rook,
            s,
            a,
        ) == slider_word(rook, s, b)
}

/// The multipliers of all 64 squares do their work.
pub open spec fn magics_fit(rook: bool) -> bool {
    forall|s: int| 0 <= s < 64 ==> #[trigger] magic_fits(rook, s)
}

/// The entry of square `s` in a table whose part for `s` begins at `offset`.
pub open spec fn entry_of(rook: bool, s: int, offset: usize) -> Magic {
    Magic {
        mask: BitBoard(slider_mask(rook, s)),
        magic: slider_magic(rook, s),
        shift: (64 - popcount(slider_mask(rook, s))) as u32,
        offset: offset,
    }
}

/// Through entry `m`, the table answers for every set of blockers with the
/// attack set of the slider on `s`.
pub open spec fn entry_serves(table: Seq<BitBoard>, m: Magic, rook: bool, s: int) -> bool {
    forall|b: u64|
        0 <= #[trigger] m.slot(b) < table.len() && table[m.slot(b)].0 == slider_word(rook, s, b)
}

/// Through the 64 entries, the table answers for every square and every set
/// of blockers with the attack set of the slider.
pub open spec fn table_serves(table: Seq<BitBoard>, magics: Seq<Magic>, rook: bool) -> bool {
    &&& magics.len() == 64
    &&& forall|s: int|
        0 <= s < 64 ==> (#[trigger] magics[s]).wf() && entry_serves(table, magics[s], rook, s)
}

/// Some subset before place `i` was written to the slot of subset `p`, and
/// its attack set is what the slot holds.
spec fn wrote(
    table: Seq<BitBoard>,
    m: Magic,
    blockers: Seq<BitBoard>,
    attacks: Seq<BitBoard>,
    i: int,
    p: int,
) -> bool {
    exists|w: int|
        0 <= w < i && m.slot((#[trigger] blockers[w]).0) == m.slot(blockers[p].0) && table[m.slot(
            blockers[p].0,
        )] == attacks[w]
}

/// Builds the part of the table that belongs to one square, at the end of
/// the table: fills it through the square's entry, then reads every subset
/// back. Gives the entry, or nothing where the multiplier does not fit.
fn build_square(table: &mut Vec<BitBoard>, square: Square, rook: bool) -> (r: Option<Magic>)
    requires
        old(table).len() <= 64 * 0x10000,
    ensures
        r.is_some() == magic_fits(rook, square.ord()),
        r matches Some(m) ==> {
            &&& m == entry_of(rook, square.ord(), old(table).len())
            &&& m.wf()
            &&& final(table).len() == old(table).len() + m.span()
            &&& entry_serves(final(table)@, m, rook, square.ord())
            &&& forall|j: int| 0 <= j < old(table).len() ==> final(table)[j] == old(table)[j]
        },
{
    let ghost s = square.ord();
    let ghost start = table@;
    let mask = if rook {
        get_rook_relevant_occupancy_mask(square)
    } else {
        get_bishop_relevant_occupancy_mask(square)
    };
    let bits = mask.count_ones();
    if bits < 1 || bits > 16 {
        return None;
    }
    let offset = table.len();
    let magic = if rook {
        rook_magic(square)
    } else {
        bishop_magic(square)
    };
    let entry = Magic { mask, magic, shift: 64 - bits, offset };
    assert(entry == entry_of(rook, s, offset));
    proof {
        entry.lemma_span_range();
    }
    let size: usize = (1u64 << ((64 - entry.shift) as u64)) as usize;
    let blockers = generate_blockers(mask);
    let attacks = if rook {
        generate_rook_attacks(square, &blockers)
    } else {
        generate_bishop_attacks(square, &blockers)
    };
    assert forall|i: int| 0 <= i < attacks.len() implies (#[trigger] attacks[i]).0 == slider_word(
        rook,
        s,
        blockers[i].0,
    ) by {}
    let mut n: usize = 0;
    while n < size
        invariant
            n <= size,
            size == entry.span(),
            offset == start.len(),
            offset + size <= 0x1000_0000,
            table.len() == offset + n,
            forall|j: int| 0 <= j < offset ==> table[j] == start[j],
        decreases size - n,
    {
        table.push(BitBoard::from(0));
        n += 1;
    }
    let mut i: usize = 0;
    while i < blockers.len()
        invariant
            i <= blockers.len(),
            attacks.len() == blockers.len(),
            entry.wf(),
            entry.offset == offset,
            size == entry.span(),
            offset == start.len(),
            table.len() == offset + size,
            forall|j: int| 0 <= j < offset ==> table[j] == start[j],
            forall|p: int|
                0 <= p < i ==> #[trigger] wrote(table@, entry, blockers@, attacks@, i as int, p),
        decreases blockers.len() - i,
    {
        let ghost before = table@;
        let idx = entry.index(blockers[i]);
        table[idx] = attacks[i];
        proof {
            let upto: int = i + 1;
            assert forall|p: int| 0 <= p < upto implies #[trigger] wrote(
                table@,
                entry,
                blockers@,
                attacks@,
                upto,
                p,
            ) by {
                entry.lemma_slot_range(blockers[p].0);
                if entry.slot(blockers[p].0) == idx {
                    assert(entry.slot(blockers[i as int].0) == entry.slot(blockers[p].0));
                } else {
                    assert(wrote(before, entry, blockers@, attacks@, i as int, p));
                    let w = choose|w: int|
                        0 <= w < i && entry.slot((#[trigger] blockers[w]).0) == entry.slot(
                            blockers[p].0,
                        ) && before[entry.slot(blockers[p].0)] == attacks[w];
                    assert(entry.slot(blockers[w].0) == entry.slot(blockers[p].0));
                }
            }
        }
        i += 1;
    }
    let ghost mask_word = slider_mask(rook, s);
    let ghost magic_word = slider_magic(rook, s);
    let mut i: usize = 0;
    while i < blockers.len()
        invariant
            i <= blockers.len(),
            attacks.len() == blockers.len(),
            entry.wf(),
            entry == entry_of(rook, s, offset),
            mask_word == slider_mask(rook, s),
            magic_word == slider_magic(rook, s),
            mask.0 == mask_word,
            1 <= popcount(mask_word) <= 16,
            s == square.ord(),
            size == entry.span(),
            offset == start.len(),
            table.len() == offset + size,
            forall|j: int| 0 <= j < blockers.len() ==> is_subset((#[trigger] blockers[j]).0, mask.0),
            forall|j: int|
                0 <= j < attacks.len() ==> (#[trigger] attacks[j]).0 == slider_word(
                    rook,
                    s,
                    blockers[j].0,
                ),
            forall|p: int|
                0 <= p < blockers.len() ==> #[trigger] wrote(
                    table@,
                    entry,
                    blockers@,
                    attacks@,
                    blockers.len() as int,
                    p,
                ),
            forall|p: int|
                0 <= p < i ==> table[entry.slot((#[trigger] blockers[p]).0)] == attacks[p],
        decreases blockers.len() - i,
    {
        let idx = entry.index(blockers[i]);
        if table[idx].0 != attacks[i].0 {
            proof {
                let p = i as int;
                assert(wrote(table@, entry, blockers@, attacks@, blockers.len() as int, p));
                let w = choose|w: int|
                    0 <= w < blockers.len() && entry.slot((#[trigger] blockers[w]).0)
                        == entry.slot(blockers[p].0) && table[entry.slot(blockers[p].0)]
                        == attacks[w];
                let a = blockers[w].0;
                let b = blockers[p].0;
                lemma_subset_facts(a, mask_word);
                lemma_subset_facts(b, mask_word);
                assert(hash_of(a, magic_word, entry.shift) == hash_of(b, magic_word, entry.shift));
                assert(slider_word(rook, s, a) != slider_word(rook, s, b));
            }
            return None;
        }
        i += 1;
    }
    proof {
        assert forall|b: u64|
            0 <= #[trigger] entry.slot(b) < table.len() && table[entry.slot(b)].0 == slider_word(
                rook,
                s,
                b,
            ) by {
            let sub = b & mask_word;
            lemma_subset_facts(b, mask_word);
            entry.lemma_slot_range(b);
            assert(listed(blockers@, sub));
            let k = choose|k: int| 0 <= k < blockers.len() && (#[trigger] blockers[k]).0 == sub;
            assert(entry.slot(sub) == entry.slot(b));
            assert(table[entry.slot(blockers[k].0)] == attacks[k]);
            lemma_mask_suffices(s, b);
        }
        assert forall|a: u64, b: u64|
            is_subset(a, mask_word) && is_subset(b, mask_word) && #[trigger] hash_of(
                a,
                magic_word,
                entry.shift,
            ) == #[trigger] hash_of(b, magic_word, entry.shift) implies slider_word(rook, s, a)
            == slider_word(rook, s, b) by {
            lemma_subset_facts(a, mask_word);
            lemma_subset_facts(b, mask_word);
            assert(entry.slot(a) == entry.slot(b));
        }
    }
    Some(entry)
}

/// Builds the whole table of a slider, square after square.
fn build_table(rook: bool) -> (r: Option<(Vec<BitBoard>, [Magic; 64])>)
    ensures
        r.is_some() == magics_fit(rook),
        r matches Some(pair) ==> table_serves(pair.0@, pair.1@, rook),
{
    let mut table: Vec<BitBoard> = Vec::new();
    let blank = Magic { mask: BitBoard::from(0), magic: 0, shift: 63, offset: 0 };
    let mut magics = [blank;64];
    let mut i: u8 = 0;
    while i < 64
        invariant
            i <= 64,
            table.len() <= i * 0x10000,
            forall|s: int| 0 <= s < i ==> #[trigger] magic_fits(rook, s),
            forall|s: int|
                0 <= s < i ==> (#[trigger] magics[s]).wf() && entry_serves(
                    table@,
                    magics[s],
                    rook,
                    s,
                ) && magics[s].offset + magics[s].span() <= table.len(),
        decreases 64 - i,
    {
        let ghost before = table@;
        let ghost entries = magics@;
        let square = Square::get_by_index(i);
        match build_square(&mut table, square, rook) {
            Some(entry) => {
                magics[i as usize] = entry;
                proof {
                    entry.lemma_slot_range(0);
                    assert forall|s: int| 0 <= s < i + 1 implies (#[trigger] magics[s]).wf()
                        && entry_serves(table@, magics[s], rook, s) && magics[s].offset
                        + magics[s].span() <= table.len() by {
                        if s < i {
                            let m = entries[s];
                            assert(magics[s] == m);
                            assert(entry_serves(before, m, rook, s));
                            assert forall|b: u64|
                                0 <= #[trigger] m.slot(b) < table.len() && table[m.slot(b)].0
                                    == slider_word(rook, s, b) by {
                                m.lemma_slot_range(b);
                            }
                        }
                    }
                }
            },
            None => {
                return None;
            },
        }
        i += 1;
    }
    Some((table, magics))
}

/// The rook table and its 64 entries; nothing where a multiplier does not fit.
pub fn generate_rook_attack_masks() -> (r: Option<(Vec<BitBoard>, [Magic; 64])>)
    ensures
        r.is_some() == magics_fit(true),
        r matches Some(pair) ==> table_serves(pair.0@, pair.1@, true),
{
    build_table(true)
}

/// The bishop table and its 64 entries; nothing where a multiplier does not fit.
pub fn generate_bishop_attack_masks() -> (r: Option<(Vec<BitBoard>, [Magic; 64])>)
    ensures
        r.is_some() == magics_fit(false),
        r matches Some(pair) ==> table_serves(pair.0@, pair.1@, false),
{
    build_table(false)
}

} // verus!
