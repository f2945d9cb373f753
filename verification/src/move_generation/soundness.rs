use vstd::prelude::*;
use super::moves::MoveParts;
use super::moves::MoveType;
use super::rules::castle_moves;
use super::rules::lemma_rule_bits;
use super::rules::may_castle_king;
use super::rules::may_castle_queen;
use super::rules::moves_to;
use super::rules::pawn_goal;
use super::rules::pawn_moves;
use super::rules::pawn_targets;
use super::rules::piece_moves;
use super::rules::piece_targets;
use super::rules::plain_move;
use super::rules::pseudo_moves;
use super::rules::targets_moves;
use crate::board_repr::bit_board::bit;
use crate::board_repr::bit_board::lemma_bit_ops;
use crate::board_repr::bit_board::lemma_bit_zero;
use crate::board_repr::bit_board::lemma_lowest;
use crate::board_repr::bit_board::lowest;
use crate::board_repr::geometry::attacks;
use crate::board_repr::geometry::on_board;
use crate::board_repr::piece::Color;
use crate::board_repr::piece::Piece;
use crate::board_repr::position::attacked;
use crate::board_repr::position::flip8;
use crate::board_repr::position::has_one_king;
use crate::board_repr::position::king_square;
use crate::board_repr::position::lemma_cells_after;
use crate::board_repr::position::lemma_placement_bits;
use crate::board_repr::position::men;
use crate::board_repr::position::men_below;
use crate::board_repr::position::occupied_bits;
use crate::board_repr::position::piece_bits;
use crate::board_repr::position::rook_from;
use crate::board_repr::position::rook_to;
use crate::board_repr::position::side_bits;
use crate::board_repr::position::Placement;
use crate::board_repr::position::Position;
use crate::board_repr::square::Square;

verus! {

/// Where the king of a side stands on exactly one square, that square is
/// its king's square.
pub proof fn lemma_king_square(pieces: Placement, color: Color, k: int)
    requires
        on_board(k),
        forall|i: int|
            on_board(i) ==> ((#[trigger] pieces[i]) == Piece::WhiteKing.spec_to_color(color)) == (i
                == k),
    ensures
        king_square(pieces, color) == k,
        has_one_king(pieces, color),
{
    let king = Piece::WhiteKing.spec_to_color(color);
    let w = piece_bits(pieces, king);
    lemma_placement_bits(pieces, king, color);
    assert(bit(w, k));
    lemma_bit_zero(w);
    lemma_lowest(w);
    assert(pieces[lowest(w)] == king);
}

proof fn lemma_men_below_update(p: Placement, i: int, x: Piece, n: int)
    requires
        0 <= i < p.len(),
        0 <= n <= p.len(),
    ensures
        men_below(p.update(i, x), n) == men_below(p, n) + if i < n {
            (if x != Piece::Empty {
                1int
            } else {
                0int
            }) - (if p[i] != Piece::Empty {
                1int
            } else {
                0int
            })
        } else {
            0int
        },
    decreases n,
{
    if n > 0 {
        lemma_men_below_update(p, i, x, n - 1);
    }
}

/// Putting a man on a square, or taking one off, changes the number of men
/// by what the square gains or loses.
pub proof fn lemma_men_update(p: Placement, i: int, x: Piece)
    requires
        p.len() == 64,
        on_board(i),
    ensures
        men(p.update(i, x)) == men(p) + (if x != Piece::Empty {
            1int
        } else {
            0int
        }) - (if p[i] != Piece::Empty {
            1int
        } else {
            0int
        }),
        0 <= men(p) <= 64,
{
    lemma_men_below_update(p, i, x, 64);
    crate::board_repr::position::lemma_men_range(p);
}

/// Whether the move takes a man: what stands on its target, or a pawn in passing.
pub open spec fn takes(f: MoveParts) -> bool {
    f.captured != Piece::Empty || (f.piece.spec_is_pawn() && f.en_passant)
}

/// A move that takes a man leaves one man less on the board, and any other
/// move leaves as many as there were.
pub proof fn lemma_men_after(pos: Position, f: MoveParts)
    requires
        pos.pieces.len() == 64,
        pos.admits(f),
    ensures
        men(pos.pieces_after(f)) == men(pos.pieces) - if takes(f) {
            1int
        } else {
            0int
        },
        0 <= men(pos.pieces) <= 64,
{
    let s = f.source.ord();
    let t = f.target.ord();
    f.source.lemma_at_ord();
    f.target.lemma_at_ord();
    rook_from(f.target).lemma_at_ord();
    rook_to(f.target).lemma_at_ord();
    let start = pos.pieces;
    lemma_men_update(start, t, Piece::Empty);
    let cleared = if f.captured != Piece::Empty {
        start.update(t, Piece::Empty)
    } else {
        start
    };
    lemma_men_update(cleared, s, Piece::Empty);
    let lifted = cleared.update(s, Piece::Empty);
    let placed = if f.piece.spec_is_pawn() && f.promoted != Piece::Empty {
        f.promoted
    } else {
        f.piece
    };
    lemma_men_update(lifted, t, placed);
    let q = lifted.update(t, placed);
    lemma_men_update(q, flip8(t), Piece::Empty);
    let moved = if f.piece.spec_is_pawn() && f.en_passant {
        q.update(flip8(t), Piece::Empty)
    } else {
        q
    };
    lemma_men_update(moved, rook_from(f.target).ord(), Piece::Empty);
    let unrooked = moved.update(rook_from(f.target).ord(), Piece::Empty);
    lemma_men_update(unrooked, rook_to(f.target).ord(), Piece::WhiteRook.spec_to_color(pos.active()));
}

proof fn lemma_made_kings(pos: Position, f: MoveParts)
    requires
        pos.sound(),
        pos.admits(f),
    ensures
        has_one_king(pos.pieces_after(f), Color::White),
        has_one_king(pos.pieces_after(f), Color::Black),
{
    let c = pos.active();
    let p = pos.pieces;
    let q = pos.pieces_after(f);
    let t = f.target.ord();
    lemma_cells_after(pos, f);
    f.source.lemma_at_ord();
    f.target.lemma_at_ord();
    let own = Piece::WhiteKing.spec_to_color(c);
    let other = Piece::WhiteKing.spec_to_color(c.spec_opposite());
    let k_own = king_square(p, c);
    let k_other = king_square(p, c.spec_opposite());
    let k_new = if f.piece == own {
        t
    } else {
        k_own
    };
    assert forall|i: int| on_board(i) implies ((#[trigger] q[i]) == own) == (i == k_new) by {
        assert(q[i] == pos.cell_after(f, i));
        assert((p[i] == own) == (i == k_own));
    }
    lemma_king_square(q, c, k_new);
    assert forall|i: int| on_board(i) implies ((#[trigger] q[i]) == other) == (i == k_other) by {
        assert(q[i] == pos.cell_after(f, i));
        assert((p[i] == other) == (i == k_other));
    }
    lemma_king_square(q, c.spec_opposite(), k_other);
}

proof fn lemma_made_passing(pos: Position, f: MoveParts)
    requires
        pos.sound(),
        pos.admits(f),
    ensures
        pos.made(f).passing_ok(),
{
    let t = f.target.ord();
    lemma_cells_after(pos, f);
    f.source.lemma_at_ord();
    f.target.lemma_at_ord();
    if f.piece.spec_is_pawn() && f.double_push {
        Square::lemma_ord_at(flip8(t));
        let q = pos.pieces_after(f);
        assert(q[flip8(t)] == pos.cell_after(f, flip8(t)));
        assert(q[t] == pos.cell_after(f, t));
        assert(flip8(flip8(t)) == t);
    }
}

proof fn lemma_made_rights(pos: Position, f: MoveParts)
    requires
        pos.sound(),
        pos.admits(f),
    ensures
        pos.made(f).rights_ok(),
{
    lemma_cells_after(pos, f);
    f.source.lemma_at_ord();
    f.target.lemma_at_ord();
    let q = pos.pieces_after(f);
    assert(q[Square::E1.ord()] == pos.cell_after(f, Square::E1.ord()));
    assert(q[Square::H1.ord()] == pos.cell_after(f, Square::H1.ord()));
    assert(q[Square::A1.ord()] == pos.cell_after(f, Square::A1.ord()));
    assert(q[Square::E8.ord()] == pos.cell_after(f, Square::E8.ord()));
    assert(q[Square::H8.ord()] == pos.cell_after(f, Square::H8.ord()));
    assert(q[Square::A8.ord()] == pos.cell_after(f, Square::A8.ord()));
}

proof fn lemma_made_pawns(pos: Position, f: MoveParts)
    requires
        pos.sound(),
        pos.admits(f),
    ensures
        pos.made(f).pawns_ok(),
{
    lemma_cells_after(pos, f);
    let q = pos.pieces_after(f);
    assert forall|i: int| on_board(i) && (#[trigger] q[i]).spec_is_pawn() implies 1 <= i / 8
        <= 6 by {
        assert(q[i] == pos.cell_after(f, i));
        if i != f.target.ord() {
            assert(pos.pieces[i].spec_is_pawn());
        }
    }
}

/// A legal move that a sound position admits leads to a sound position.
pub proof fn lemma_made_sound(pos: Position, f: MoveParts)
    requires
        pos.sound(),
        pos.admits(f),
        pos.is_legal(f),
    ensures
        pos.made(f).sound(),
{
    lemma_cells_after(pos, f);
    lemma_made_kings(pos, f);
    lemma_made_passing(pos, f);
    lemma_made_rights(pos, f);
    lemma_made_pawns(pos, f);
    let c = pos.active();
    assert(pos.made(f).active() == c.spec_opposite());
    assert(c.spec_opposite().spec_opposite() == c);
}

/// What is in two lists joined is in one of them.
pub proof fn lemma_concat_contains(a: Seq<MoveParts>, b: Seq<MoveParts>, m: MoveParts)
    requires
        (a + b).contains(m),
    ensures
        a.contains(m) || b.contains(m),
{
    let i = choose|i: int| 0 <= i < (a + b).len() && (a + b)[i] == m;
    if i < a.len() {
        assert(a[i] == m);
    } else {
        assert(b[i - a.len()] == m);
    }
}

/// A move among the moves to the squares of a set goes to one of them.
pub proof fn lemma_targets_member(
    pos: Position,
    piece: Piece,
    s: int,
    targets: u64,
    n: int,
    m: MoveParts,
) -> (t: int)
    requires
        targets_moves(pos, piece, s, targets, n).contains(m),
    ensures
        0 <= t < n,
        bit(targets, t),
        moves_to(pos, piece, s, t).contains(m),
    decreases n,
{
    if n <= 0 {
        assert(false);
        0
    } else {
        let last = if bit(targets, n - 1) {
            moves_to(pos, piece, s, n - 1)
        } else {
            Seq::empty()
        };
        lemma_concat_contains(targets_moves(pos, piece, s, targets, n - 1), last, m);
        if last.contains(m) {
            n - 1
        } else {
            lemma_targets_member(pos, piece, s, targets, n - 1, m)
        }
    }
}

/// A move among the moves of the men of a kind is a move of one of them to
/// one of its targets.
pub proof fn lemma_piece_member(
    pos: Position,
    piece: Piece,
    move_type: MoveType,
    n: int,
    m: MoveParts,
) -> (st: (int, int))
    requires
        piece_moves(pos, piece, move_type, n).contains(m),
    ensures
        0 <= st.0 < n,
        pos.pieces[st.0] == piece.spec_to_color(pos.active()),
        on_board(st.1),
        bit(piece_targets(pos, piece, st.0, move_type), st.1),
        moves_to(pos, piece, st.0, st.1).contains(m),
    decreases n,
{
    if n <= 0 {
        assert(false);
        (0, 0)
    } else {
        let last = if pos.pieces[n - 1] == piece.spec_to_color(pos.active()) {
            targets_moves(pos, piece, n - 1, piece_targets(pos, piece, n - 1, move_type), 64)
        } else {
            Seq::empty()
        };
        lemma_concat_contains(piece_moves(pos, piece, move_type, n - 1), last, m);
        if last.contains(m) {
            let t = lemma_targets_member(
                pos,
                piece,
                n - 1,
                piece_targets(pos, piece, n - 1, move_type),
                64,
                m,
            );
            (n - 1, t)
        } else {
            lemma_piece_member(pos, piece, move_type, n - 1, m)
        }
    }
}

/// A move among the moves of the pawns is a move of one of them to one of
/// its targets.
pub proof fn lemma_pawn_member(pos: Position, move_type: MoveType, n: int, m: MoveParts) -> (st: (
    int,
    int,
))
    requires
        pawn_moves(pos, move_type, n).contains(m),
    ensures
        0 <= st.0 < n,
        pos.pieces[st.0] == Piece::WhitePawn.spec_to_color(pos.active()),
        on_board(st.1),
        bit(pawn_targets(pos, st.0, move_type), st.1),
        moves_to(pos, Piece::WhitePawn.spec_to_color(pos.active()), st.0, st.1).contains(m),
    decreases n,
{
    let pawn = Piece::WhitePawn.spec_to_color(pos.active());
    if n <= 0 {
        assert(false);
        (0, 0)
    } else {
        let last = if pos.pieces[n - 1] == pawn {
            targets_moves(pos, pawn, n - 1, pawn_targets(pos, n - 1, move_type), 64)
        } else {
            Seq::empty()
        };
        lemma_concat_contains(pawn_moves(pos, move_type, n - 1), last, m);
        if last.contains(m) {
            let t = lemma_targets_member(
                pos,
                pawn,
                n - 1,
                pawn_targets(pos, n - 1, move_type),
                64,
                m,
            );
            (n - 1, t)
        } else {
            lemma_pawn_member(pos, move_type, n - 1, m)
        }
    }
}

/// In a sound position a man of the side to move attacks no king of the
/// other side.
pub proof fn lemma_king_not_taken(pos: Position, s: int, t: int)
    requires
        pos.sound(),
        on_board(s),
        on_board(t),
        pos.pieces[s].belongs_to(pos.active()),
        attacks(pos.pieces[s], s, t, occupied_bits(pos.pieces)),
    ensures
        pos.pieces[t] != Piece::WhiteKing.spec_to_color(pos.active().spec_opposite()),
{
    let p = pos.pieces;
    let c = pos.active();
    if p[t] == Piece::WhiteKing.spec_to_color(c.spec_opposite()) {
        assert(t == king_square(p, c.spec_opposite()));
        assert(attacked(p, t, c));
    }
}

/// A move among the moves from `s` to `t` is the plain move or one of its
/// four promotions.
pub proof fn lemma_moves_to_member(pos: Position, piece: Piece, s: int, t: int, m: MoveParts)
    requires
        moves_to(pos, piece, s, t).contains(m),
    ensures
        m.source == Square::at(s),
        m.target == Square::at(t),
        m.piece == piece,
        m.captured == pos.pieces[t],
        m.en_passant == plain_move(pos, piece, s, t).en_passant,
        m.castling == plain_move(pos, piece, s, t).castling,
        m.double_push == plain_move(pos, piece, s, t).double_push,
        if piece.spec_is_pawn() && t / 8 == super::rules::promotion_row(pos.active()) {
            m.promoted == Piece::WhiteRook.spec_to_color(pos.active()) || m.promoted
                == Piece::WhiteQueen.spec_to_color(pos.active()) || m.promoted
                == Piece::WhiteBishop.spec_to_color(pos.active()) || m.promoted
                == Piece::WhiteKnight.spec_to_color(pos.active())
        } else {
            m.promoted == Piece::Empty
        },
{
    let l = moves_to(pos, piece, s, t);
    let i = choose|i: int| 0 <= i < l.len() && l[i] == m;
    assert(l[i] == m);
}

/// In a sound position the move of a pawn of the side to move to one of
/// its targets is admitted.
pub proof fn lemma_pawn_move_admitted(
    pos: Position,
    move_type: MoveType,
    s: int,
    t: int,
    m: MoveParts,
)
    requires
        pos.sound(),
        on_board(s),
        on_board(t),
        pos.pieces[s] == Piece::WhitePawn.spec_to_color(pos.active()),
        pawn_goal(pos, s, move_type)(t),
        moves_to(pos, Piece::WhitePawn.spec_to_color(pos.active()), s, t).contains(m),
    ensures
        pos.admits(m),
{
    let pawn = Piece::WhitePawn.spec_to_color(pos.active());
    lemma_moves_to_member(pos, pawn, s, t, m);
    Square::lemma_ord_at(s);
    Square::lemma_ord_at(t);
    let p = pos.pieces;
    let c = pos.active();
    assert(p[s].spec_is_pawn());
    if crate::board_repr::geometry::pawn_rel(c, s, t) {
        lemma_king_not_taken(pos, s, t);
    }
    if pos.state.en_passant_target == Some(Square::at(t)) {
        assert(pos.state.en_passant_target.unwrap().ord() == t);
    }
}

/// In a sound position the move of a king, queen, rook, bishop or knight of
/// the side to move to one of its targets is admitted, unless quiet moves
/// were asked for.
pub proof fn lemma_officer_move_admitted(
    pos: Position,
    piece: Piece,
    move_type: MoveType,
    s: int,
    t: int,
    m: MoveParts,
)
    requires
        pos.sound(),
        move_type != MoveType::Quite,
        super::generator::is_officer(piece),
        piece.belongs_to(pos.active()),
        on_board(s),
        on_board(t),
        pos.pieces[s] == piece,
        bit(piece_targets(pos, piece, s, move_type), t),
        moves_to(pos, piece, s, t).contains(m),
    ensures
        pos.admits(m),
{
    lemma_moves_to_member(pos, piece, s, t, m);
    Square::lemma_ord_at(s);
    Square::lemma_ord_at(t);
    let p = pos.pieces;
    let c = pos.active();
    let occ = occupied_bits(p);
    lemma_rule_bits(pos, piece, s, move_type, occ);
    lemma_placement_bits(p, Piece::Empty, c);
    lemma_placement_bits(p, Piece::Empty, c.spec_opposite());
    let attack = super::rules::attack_bits(piece, s, occ);
    lemma_bit_ops(attack, side_bits(p, c));
    lemma_bit_ops(attack, side_bits(p, c.spec_opposite()));
    assert(attacks(piece, s, t, occ));
    lemma_king_not_taken(pos, s, t);
    if pos.state.en_passant_target == Some(Square::at(t)) {
        assert(pos.state.en_passant_target.unwrap().ord() == t);
    }
}

/// In a sound position the castling moves are admitted.
pub proof fn lemma_castle_admitted(pos: Position, m: MoveParts)
    requires
        pos.sound(),
        castle_moves(pos).contains(m),
    ensures
        pos.admits(m),
{
    let c = pos.active();
    let p = pos.pieces;
    let king = Piece::WhiteKing.spec_to_color(c);
    let from = king_square(p, c);
    let g = if c == Color::White {
        Square::G1.ord()
    } else {
        Square::G8.ord()
    };
    let cc = if c == Color::White {
        Square::C1.ord()
    } else {
        Square::C8.ord()
    };
    let short = if may_castle_king(pos) {
        moves_to(pos, king, from, g)
    } else {
        Seq::empty()
    };
    let long = if may_castle_queen(pos) {
        moves_to(pos, king, from, cc)
    } else {
        Seq::empty()
    };
    lemma_concat_contains(short, long, m);
    assert(p[from] == king);
    Square::lemma_ord_at(from);
    if short.contains(m) {
        lemma_moves_to_member(pos, king, from, g, m);
        Square::lemma_ord_at(g);
        if pos.state.en_passant_target == Some(Square::at(g)) {
            assert(pos.state.en_passant_target.unwrap().ord() == g);
        }
    } else {
        lemma_moves_to_member(pos, king, from, cc, m);
        Square::lemma_ord_at(cc);
        if pos.state.en_passant_target == Some(Square::at(cc)) {
            assert(pos.state.en_passant_target.unwrap().ord() == cc);
        }
    }
}

/// In a sound position every move that generation gives is admitted, unless
/// quiet moves were asked for.
pub proof fn lemma_generated_admitted(pos: Position, move_type: MoveType, m: MoveParts)
    requires
        pos.sound(),
        move_type != MoveType::Quite,
        pseudo_moves(pos, move_type).contains(m),
    ensures
        pos.admits(m),
{
    reveal(pseudo_moves);
    let c = pos.active();
    let pawns = pawn_moves(pos, move_type, 64);
    let castles = if move_type != MoveType::Capture {
        castle_moves(pos)
    } else {
        Seq::empty()
    };
    let k = piece_moves(pos, Piece::WhiteKing.spec_to_color(c), move_type, 64);
    let q = piece_moves(pos, Piece::WhiteQueen.spec_to_color(c), move_type, 64);
    let r = piece_moves(pos, Piece::WhiteRook.spec_to_color(c), move_type, 64);
    let b = piece_moves(pos, Piece::WhiteBishop.spec_to_color(c), move_type, 64);
    let n = piece_moves(pos, Piece::WhiteKnight.spec_to_color(c), move_type, 64);
    lemma_concat_contains(pawns + castles + k + q + r + b, n, m);
    if n.contains(m) {
        lemma_officers_admitted(pos, Piece::WhiteKnight.spec_to_color(c), move_type, m);
    } else {
        lemma_concat_contains(pawns + castles + k + q + r, b, m);
        if b.contains(m) {
            lemma_officers_admitted(pos, Piece::WhiteBishop.spec_to_color(c), move_type, m);
        } else {
            lemma_concat_contains(pawns + castles + k + q, r, m);
            if r.contains(m) {
                lemma_officers_admitted(pos, Piece::WhiteRook.spec_to_color(c), move_type, m);
            } else {
                lemma_concat_contains(pawns + castles + k, q, m);
                if q.contains(m) {
                    lemma_officers_admitted(pos, Piece::WhiteQueen.spec_to_color(c), move_type, m);
                } else {
                    lemma_concat_contains(pawns + castles, k, m);
                    if k.contains(m) {
                        lemma_officers_admitted(
                            pos,
                            Piece::WhiteKing.spec_to_color(c),
                            move_type,
                            m,
                        );
                    } else {
                        lemma_concat_contains(pawns, castles, m);
                        if castles.contains(m) {
                            lemma_castle_admitted(pos, m);
                        } else {
                            let st = lemma_pawn_member(pos, move_type, 64, m);
                            lemma_rule_bits(pos, Piece::WhitePawn, st.0, move_type, 0);
                            lemma_pawn_move_admitted(pos, move_type, st.0, st.1, m);
                        }
                    }
                }
            }
        }
    }
}

proof fn lemma_officers_admitted(pos: Position, piece: Piece, move_type: MoveType, m: MoveParts)
    requires
        pos.sound(),
        move_type != MoveType::Quite,
        super::generator::is_officer(piece),
        piece.belongs_to(pos.active()),
        piece_moves(pos, piece, move_type, 64).contains(m),
    ensures
        pos.admits(m),
{
    let st = lemma_piece_member(pos, piece, move_type, 64, m);
    lemma_officer_move_admitted(pos, piece, move_type, st.0, st.1, m);
}

/// In a sound position every move that generation gives when captures are
/// asked for takes a man.
pub proof fn lemma_capture_takes(pos: Position, m: MoveParts)
    requires
        pos.sound(),
        pseudo_moves(pos, MoveType::Capture).contains(m),
    ensures
        takes(m),
{
    reveal(pseudo_moves);
    let c = pos.active();
    let p = pos.pieces;
    let mt = MoveType::Capture;
    let pawns = pawn_moves(pos, mt, 64);
    let none = Seq::<MoveParts>::empty();
    let k = piece_moves(pos, Piece::WhiteKing.spec_to_color(c), mt, 64);
    let q = piece_moves(pos, Piece::WhiteQueen.spec_to_color(c), mt, 64);
    let r = piece_moves(pos, Piece::WhiteRook.spec_to_color(c), mt, 64);
    let b = piece_moves(pos, Piece::WhiteBishop.spec_to_color(c), mt, 64);
    let n = piece_moves(pos, Piece::WhiteKnight.spec_to_color(c), mt, 64);
    lemma_concat_contains(pawns + none + k + q + r + b, n, m);
    if n.contains(m) {
        lemma_officer_takes(pos, Piece::WhiteKnight.spec_to_color(c), m);
    } else {
        lemma_concat_contains(pawns + none + k + q + r, b, m);
        if b.contains(m) {
            lemma_officer_takes(pos, Piece::WhiteBishop.spec_to_color(c), m);
        } else {
            lemma_concat_contains(pawns + none + k + q, r, m);
            if r.contains(m) {
                lemma_officer_takes(pos, Piece::WhiteRook.spec_to_color(c), m);
            } else {
                lemma_concat_contains(pawns + none + k, q, m);
                if q.contains(m) {
                    lemma_officer_takes(pos, Piece::WhiteQueen.spec_to_color(c), m);
                } else {
                    lemma_concat_contains(pawns + none, k, m);
                    if k.contains(m) {
                        lemma_officer_takes(pos, Piece::WhiteKing.spec_to_color(c), m);
                    } else {
                        lemma_concat_contains(pawns, none, m);
                        let pawn = Piece::WhitePawn.spec_to_color(c);
                        let st = lemma_pawn_member(pos, mt, 64, m);
                        lemma_rule_bits(pos, pawn, st.0, mt, 0);
                        lemma_moves_to_member(pos, pawn, st.0, st.1, m);
                        Square::lemma_ord_at(st.1);
                    }
                }
            }
        }
    }
}

proof fn lemma_officer_takes(pos: Position, piece: Piece, m: MoveParts)
    requires
        pos.sound(),
        piece_moves(pos, piece, MoveType::Capture, 64).contains(m),
    ensures
        m.captured != Piece::Empty,
{
    let c = pos.active();
    let p = pos.pieces;
    let st = lemma_piece_member(pos, piece, MoveType::Capture, 64, m);
    lemma_moves_to_member(pos, piece, st.0, st.1, m);
    lemma_placement_bits(p, Piece::Empty, c.spec_opposite());
    let attack = super::rules::attack_bits(piece, st.0, occupied_bits(p));
    lemma_bit_ops(attack, side_bits(p, c.spec_opposite()));
}

} // verus!
