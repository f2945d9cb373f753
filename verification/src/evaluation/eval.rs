use vstd::prelude::*;
use crate::board_repr::board::Board;
use crate::board_repr::piece::Color;
use crate::board_repr::piece::Piece;
use crate::board_repr::position::Placement;

verus! {

pub const KING_SCORE: [i16; 64] = [
    0, 0,  0,  0,  0,  0,  0, 0,
    0, 0,  5,  5,  5,  5,  0, 0,
    0, 5,  5, 10, 10,  5,  5, 0,
    0, 5, 10, 20, 20, 10,  5, 0,
    0, 5, 10, 20, 20, 10,  5, 0,
    0, 0,  5, 10, 10,  5,  0, 0,
    0, 5,  5, -5, -5,  0,  5, 0,
    0, 0,  5,  0, 15,  0, 10, 0,
];

pub const ROOK_SCORE: [i16; 64] = [
    50, 50, 50, 50, 50, 50, 50, 50,
    50, 50, 50, 50, 50, 50, 50, 50,
    0,  0, 10, 20, 20, 10,  0,  0,
    0,  0, 10, 20, 20, 10,  0,  0,
    0,  0, 10, 20, 20, 10,  0,  0,
    0,  0, 10, 20, 20, 10,  0,  0,
    0,  0, 10, 20, 20, 10,  0,  0,
    0,  0,  0, 20, 20,  0,  0,  0,
];

pub const BISHOP_SCORE: [i16; 64] = [
    0,  0,   0,  0,  0,   0,  0, 0,
    0,  0,   0,  0,  0,   0,  0, 0,
    0,  0,   0, 10, 10,   0,  0, 0,
    0,  0,  10, 20, 20,  10,  0, 0,
    0,  0,  10, 20, 20,  10,  0, 0,
    0, 10,   0,  0,  0,   0, 10, 0,
    0, 30,   0,  0,  0,   0, 30, 0,
    0,  0, -10,  0,  0, -10,  0, 0,
];

pub const KNIGHT_SCORE: [i16; 64] = [
    -5,   0,   0,   0,   0,   0,   0,  -5,
    -5,   0,   0,  10,  10,   0,   0,  -5,
    -5,   5,  20,  20,  20,  20,   5,  -5,
    -5,  10,  20,  30,  30,  20,  10,  -5,
    -5,  10,  20,  30,  30,  20,  10,  -5,
    -5,   5,  20,  10,  10,  20,   5,  -5,
    -5,   0,   0,   0,   0,   0,   0,  -5,
    -5, -10,   0,   0,   0,   0, -10,  -5,
];

pub const PAWN_SCORE: [i16; 64] = [
    90,  90,  90,  90,  90,  90,  90,  90,
    30,  30,  30,  40,  40,  30,  30,  30,
    20,  20,  20,  30,  30,  30,  20,  20,
    10,  10,  10,  20,  20,  10,  10,  10,
     5,   5,  10,  20,  20,   5,   5,   5,
     0,   0,   0,   5,   5,   0,   0,   0,
     0,   0,   0, -10, -10,   0,   0,   0,
     0,   0,   0,   0,   0,   0,   0,   0,
];

pub const FLIP: [usize; 64] = [
    56, 57, 58, 59, 60, 61, 62, 63,
    48, 49, 50, 51, 52, 53, 54, 55,
    40, 41, 42, 43, 44, 45, 46, 47,
    32, 33, 34, 35, 36, 37, 38, 39,
    24, 25, 26, 27, 28, 29, 30, 31,
    16, 17, 18, 19, 20, 21, 22, 23,
     8,  9, 10, 11, 12, 13, 14, 15,
     0,  1,  2,  3,  4,  5,  6,  7,
];

/// What the place of a man is worth: the entry of the table of its kind for
/// its square, read from White's side of the board for a white man and from
/// Black's side for any other; nothing for a queen and for an empty square.
pub open spec fn place_value(piece: Piece, i: int) -> int {
    let at = if piece.spec_color() == Color::White {
        i
    } else {
        FLIP[i] as int
    };
    if piece.spec_is_king() {
        KING_SCORE[at] as int
    } else if piece.spec_is_rook() {
        ROOK_SCORE[at] as int
    } else if piece.spec_is_bishop() {
        BISHOP_SCORE[at] as int
    } else if piece.spec_is_knight() {
        KNIGHT_SCORE[at] as int
    } else if piece.spec_is_pawn() {
        PAWN_SCORE[at] as int
    } else {
        0
    }
}

/// The weights and place values of the men on the squares below `n`, added up.
pub open spec fn total_below(pieces: Placement, n: int) -> int
    decreases n,
{
    if n <= 0 {
        0
    } else {
        total_below(pieces, n - 1) + pieces[n - 1].weight() + place_value(pieces[n - 1], n - 1)
    }
}

/// A number held to what sixteen bits can carry.
pub open spec fn held(x: int) -> int {
    if x > 32767 {
        32767
    } else if x < -32767 {
        -32767
    } else {
        x
    }
}

/// The score of a placement: the weights and place values of all its men,
/// held to sixteen bits.
pub open spec fn score_of(pieces: Placement) -> int {
    held(total_below(pieces, 64))
}

/// What the place of a man is worth.
fn place_score(piece: Piece, i: usize) -> (r: i16)
    requires
        i < 64,
    ensures
        r == place_value(piece, i as int),
        -10 <= r <= 90,
{
    let at = match piece.color() {
        Color::White => i,
        _ => FLIP[i],
    };
    if piece.is_king() {
        KING_SCORE[at]
    } else if piece.is_rook() {
        ROOK_SCORE[at]
    } else if piece.is_bishop() {
        BISHOP_SCORE[at]
    } else if piece.is_knight() {
        KNIGHT_SCORE[at]
    } else if piece.is_pawn() {
        PAWN_SCORE[at]
    } else {
        0
    }
}

/// The static score of the position: material and place, positive where
/// White is ahead. A sum beyond what sixteen bits can carry is held at
/// the end of their range.
pub fn evaluate(board: &Board) -> (r: i16)
    ensures
        r == score_of(board.piece_by_square@),
        -32767 <= r <= 32767,
{
    let mut score: i32 = 0;
    let mut i: usize = 0;
    while i < 64
        invariant
            i <= 64,
            score == total_below(board.piece_by_square@, i as int),
            -10100 * i <= score <= 10100 * i,
        decreases 64 - i,
    {
        let piece = board.piece_by_square[i];
        score = score + piece.eval_value() as i32 + place_score(piece, i) as i32;
        i += 1;
    }
    if score > 32767 {
        32767
    } else if score < -32767 {
        -32767
    } else {
        score as i16
    }
}

} // verus!
