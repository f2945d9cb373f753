use vstd::prelude::*;
use super::bit_board::bit;
use super::bit_board::lemma_bit_ops;
use super::bit_board::lemma_bit_single;
use super::bit_board::lemma_bit_zero;
use super::piece::Color;
use super::piece::Piece;

verus! {

/// The row of the square with index `i`, counted from the top.
pub open spec fn row(i: int) -> int {
    i / 8
}

/// The column of the square with index `i`, counted from the left.
pub open spec fn col(i: int) -> int {
    i % 8
}

/// The index of the square in row `r` and column `c`.
pub open spec fn cell(r: int, c: int) -> int {
    r * 8 + c
}

/// Whether `i` is the index of a square.
pub open spec fn on_board(i: int) -> bool {
    0 <= i < 64
}

/// The distance between two numbers.
pub open spec fn gap(a: int, b: int) -> int {
    if a >= b {
        a - b
    } else {
        b - a
    }
}

/// The number of king steps between two squares.
pub open spec fn dist(s: int, t: int) -> int {
    if gap(row(s), row(t)) >= gap(col(s), col(t)) {
        gap(row(s), row(t))
    } else {
        gap(col(s), col(t))
    }
}

/// `k` steps in the direction of `d`: `k`, `-k` or nothing.
pub open spec fn scaled(d: int, k: int) -> int {
    if d > 0 {
        k
    } else if d < 0 {
        -k
    } else {
        0
    }
}

/// Whether `(dr, dc)` is one of the eight directions of the board.
pub open spec fn is_direction(dr: int, dc: int) -> bool {
    -1 <= dr <= 1 && -1 <= dc <= 1 && (dr != 0 || dc != 0)
}

/// The square `k` steps from `s` in direction `(dr, dc)`.
pub open spec fn ray_cell(s: int, dr: int, dc: int, k: int) -> int {
    cell(row(s) + scaled(dr, k), col(s) + scaled(dc, k))
}

/// A king on `s` attacks `t`: a neighbour of `s`.
pub open spec fn king_rel(s: int, t: int) -> bool {
    on_board(s) && on_board(t) && s != t && gap(row(s), row(t)) <= 1 && gap(col(s), col(t)) <= 1
}

/// A knight on `s` attacks `t`: one step one way and two the other.
pub open spec fn knight_rel(s: int, t: int) -> bool {
    on_board(s) && on_board(t) && ((gap(row(s), row(t)) == 1 && gap(col(s), col(t)) == 2) || (gap(
        row(s),
        row(t),
    ) == 2 && gap(col(s), col(t)) == 1))
}

/// A pawn of the given side on `s` attacks `t`: one column aside, one row
/// towards the far end of the board (up for White, down for Black).
pub open spec fn pawn_rel(color: Color, s: int, t: int) -> bool {
    on_board(s) && on_board(t) && gap(col(s), col(t)) == 1 && match color {
        Color::White => row(t) == row(s) - 1,
        Color::Black => row(t) == row(s) + 1,
        Color::Both => false,
    }
}

/// A slider on `s` reaches `t` along direction `(dr, dc)`: `t` lies on that
/// ray and no square strictly between the two is in `blockers`.
pub open spec fn ray_rel(s: int, t: int, blockers: u64, dr: int, dc: int) -> bool {
    &&& on_board(s)
    &&& on_board(t)
    &&& dist(s, t) >= 1
    &&& row(t) == row(s) + scaled(dr, dist(s, t))
    &&& col(t) == col(s) + scaled(dc, dist(s, t))
    &&& forall|k: int| 0 < k < dist(s, t) ==> !bit(blockers, #[trigger] ray_cell(s, dr, dc, k))
}

/// A rook on `s` attacks `t`, with the given squares in the way.
pub open spec fn rook_rel(s: int, t: int, blockers: u64) -> bool {
    ray_rel(s, t, blockers, -1, 0) || ray_rel(s, t, blockers, 1, 0) || ray_rel(
        s,
        t,
        blockers,
        0,
        -1,
    ) || ray_rel(s, t, blockers, 0, 1)
}

/// A bishop on `s` attacks `t`, with the given squares in the way.
pub open spec fn bishop_rel(s: int, t: int, blockers: u64) -> bool {
    ray_rel(s, t, blockers, -1, 1) || ray_rel(s, t, blockers, -1, -1) || ray_rel(
        s,
        t,
        blockers,
        1,
        1,
    ) || ray_rel(s, t, blockers, 1, -1)
}

/// A queen on `s` attacks `t`, with the given squares in the way.
pub open spec fn queen_rel(s: int, t: int, blockers: u64) -> bool {
    rook_rel(s, t, blockers) || bishop_rel(s, t, blockers)
}

/// The given man on `s` attacks `t`, with the given squares in the way.
pub open spec fn attacks(piece: Piece, s: int, t: int, blockers: u64) -> bool {
    match piece {
        Piece::WhitePawn => pawn_rel(Color::White, s, t),
        Piece::BlackPawn => pawn_rel(Color::Black, s, t),
        Piece::WhiteKnight | Piece::BlackKnight => knight_rel(s, t),
        Piece::WhiteKing | Piece::BlackKing => king_rel(s, t),
        Piece::WhiteBishop | Piece::BlackBishop => bishop_rel(s, t, blockers),
        Piece::WhiteRook | Piece::BlackRook => rook_rel(s, t, blockers),
        Piece::WhiteQueen | Piece::BlackQueen => queen_rel(s, t, blockers),
        Piece::Empty => false,
    }
}

/// The word whose bits below `n` are those that `f` picks.
pub open spec fn bits_below(f: spec_fn(int) -> bool, n: int) -> u64
    decreases n,
{
    if n <= 0 {
        0
    } else {
        bits_below(f, n - 1) | if f(n - 1) {
            1u64 << ((n - 1) as u64)
        } else {
            0u64
        }
    }
}

/// The word whose bits are those that `f` picks among the 64 squares.
pub open spec fn bits_where(f: spec_fn(int) -> bool) -> u64 {
    bits_below(f, 64)
}

proof fn lemma_bits_below(f: spec_fn(int) -> bool, n: int)
    requires
        0 <= n <= 64,
    ensures
        forall|i: int| #[trigger] bit(bits_below(f, n), i) == (0 <= i < n && f(i)),
    decreases n,
{
    if n <= 0 {
        lemma_bit_zero(0);
    } else {
        lemma_bits_below(f, n - 1);
        let low = bits_below(f, n - 1);
        let top = if f(n - 1) {
            1u64 << ((n - 1) as u64)
        } else {
            0u64
        };
        lemma_bit_ops(low, top);
        lemma_bit_single(n - 1);
        lemma_bit_zero(0);
        assert forall|i: int| #[trigger] bit(bits_below(f, n), i) == (0 <= i < n && f(i)) by {
            assert(bit(low | top, i) == (bit(low, i) || bit(top, i)));
        }
    }
}

/// A word built from a predicate holds exactly the squares that it picks.
pub proof fn lemma_bits_where(f: spec_fn(int) -> bool)
    ensures
        forall|i: int| #[trigger] bit(bits_where(f), i) == (on_board(i) && f(i)),
{
    lemma_bits_below(f, 64);
}

/// Along a ray, the squares between the two ends are the same from either
/// end, so a slider reaches `t` from `s` exactly when it reaches `s` from `t`.
pub proof fn lemma_ray_symmetric(s: int, t: int, blockers: u64, dr: int, dc: int)
    requires
        is_direction(dr, dc),
    ensures
        ray_rel(s, t, blockers, dr, dc) == ray_rel(t, s, blockers, -dr, -dc),
{
    if on_board(s) && on_board(t) {
        let n = dist(s, t);
        assert(dist(t, s) == n);
        if ray_rel(s, t, blockers, dr, dc) {
            assert forall|k: int| 0 < k < n implies !bit(
                blockers,
                #[trigger] ray_cell(t, -dr, -dc, k),
            ) by {
                assert(ray_cell(t, -dr, -dc, k) == ray_cell(s, dr, dc, n - k));
            }
        }
        if ray_rel(t, s, blockers, -dr, -dc) {
            assert forall|k: int| 0 < k < n implies !bit(
                blockers,
                #[trigger] ray_cell(s, dr, dc, k),
            ) by {
                assert(ray_cell(s, dr, dc, k) == ray_cell(t, -dr, -dc, n - k));
            }
        }
    }
}

/// The attack of a slider is the same from either end.
pub proof fn lemma_slider_symmetric(s: int, t: int, blockers: u64)
    ensures
        rook_rel(s, t, blockers) == rook_rel(t, s, blockers),
        bishop_rel(s, t, blockers) == bishop_rel(t, s, blockers),
        queen_rel(s, t, blockers) == queen_rel(t, s, blockers),
{
    lemma_ray_symmetric(s, t, blockers, -1, 0);
    lemma_ray_symmetric(s, t, blockers, 1, 0);
    lemma_ray_symmetric(s, t, blockers, 0, -1);
    lemma_ray_symmetric(s, t, blockers, 0, 1);
    lemma_ray_symmetric(s, t, blockers, -1, 1);
    lemma_ray_symmetric(s, t, blockers, -1, -1);
    lemma_ray_symmetric(s, t, blockers, 1, 1);
    lemma_ray_symmetric(s, t, blockers, 1, -1);
}

} // verus!
