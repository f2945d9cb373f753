use vstd::prelude::*;
use crate::board_repr::piece::Piece;
use crate::board_repr::square::Square;

verus! {

/// Which moves a generation call is asked for.
#[derive(Clone, Copy, Debug, PartialEq, Eq, Structural)]
pub enum MoveType {
    Quite,
    Capture,
    All,
}

/// What a move says: where from, where to, which man, what it takes, what it
/// becomes, and the three marks.
#[derive(Clone, Copy, Debug, PartialEq, Eq, Structural)]
pub struct MoveParts {
    pub source: Square,
    pub target: Square,
    pub piece: Piece,
    pub captured: Piece,
    pub promoted: Piece,
    pub en_passant: bool,
    pub castling: bool,
    pub double_push: bool,
}

/// One flag as a number.
pub open spec fn flag(b: bool) -> u32 {
    if b {
        1
    } else {
        0
    }
}

/// The word that stands for the given parts: six bits for each square, four
/// for each piece, one for each mark, from the low end up.
pub open spec fn pack(f: MoveParts) -> u32 {
    (f.source.ord() as u32) | (f.target.ord() as u32) << 6 | (f.piece.spec_value() as u32) << 12 | (
    f.captured.spec_value() as u32) << 16 | (f.promoted.spec_value() as u32) << 20 | flag(
        f.en_passant,
    ) << 24 | flag(f.castling) << 25 | flag(f.double_push) << 26
}

/// The parts that a word stands for.
pub open spec fn unpack(d: u32) -> MoveParts {
    MoveParts {
        source: Square::at((d & 0x3f) as int),
        target: Square::at(((d & 0xfc0) >> 6) as int),
        piece: Piece::at(((d & 0xf000) >> 12) as int),
        captured: Piece::at(((d & 0xf0000) >> 16) as int),
        promoted: Piece::at(((d & 0xf00000) >> 20) as int),
        en_passant: d & 0x1000000 != 0,
        castling: d & 0x2000000 != 0,
        double_push: d & 0x4000000 != 0,
    }
}

/// Whether a word is the packed form of some parts.
pub open spec fn is_code(d: u32) -> bool {
    &&& d < 0x8000000
    &&& ((d & 0xf000) >> 12) <= 12
    &&& ((d & 0xf0000) >> 16) <= 12
    &&& ((d & 0xf00000) >> 20) <= 12
}

proof fn lemma_pack_words(s: u32, t: u32, p: u32, c: u32, q: u32, e: u32, k: u32, dp: u32)
    by (bit_vector)
    requires
        s < 64,
        t < 64,
        p <= 12,
        c <= 12,
        q <= 12,
        e <= 1,
        k <= 1,
        dp <= 1,
    ensures
        ({
            let d = s | t << 6 | p << 12 | c << 16 | q << 20 | e << 24 | k << 25 | dp << 26;
            &&& d & 0x3f == s
            &&& (d & 0xfc0) >> 6 == t
            &&& (d & 0xf000) >> 12 == p
            &&& (d & 0xf0000) >> 16 == c
            &&& (d & 0xf00000) >> 20 == q
            &&& (d & 0x1000000 != 0) == (e == 1)
            &&& (d & 0x2000000 != 0) == (k == 1)
            &&& (d & 0x4000000 != 0) == (dp == 1)
            &&& d < 0x8000000
        }),
{
}

proof fn lemma_unpack_words(d: u32)
    by (bit_vector)
    requires
        d < 0x8000000,
    ensures
        (d & 0x3f) < 64,
        ((d & 0xfc0) >> 6) < 64,
        ((d & 0xf000) >> 12) < 16,
        ((d & 0xf0000) >> 16) < 16,
        ((d & 0xf00000) >> 20) < 16,
        ({
            let e: u32 = if d & 0x1000000 != 0 { 1 } else { 0 };
            let k: u32 = if d & 0x2000000 != 0 { 1 } else { 0 };
            let dp: u32 = if d & 0x4000000 != 0 { 1 } else { 0 };
            (d & 0x3f) | ((d & 0xfc0) >> 6) << 6 | ((d & 0xf000) >> 12) << 12 | ((d & 0xf0000)
                >> 16) << 16 | ((d & 0xf00000) >> 20) << 20 | e << 24 | k << 25 | dp << 26 == d
        }),
{
}

/// Unpacking what was packed gives the parts back, whatever they are.
pub proof fn lemma_unpack_pack(f: MoveParts)
    ensures
        unpack(pack(f)) == f,
        is_code(pack(f)),
{
    f.source.lemma_at_ord();
    f.target.lemma_at_ord();
    f.piece.lemma_value_at();
    f.captured.lemma_value_at();
    f.promoted.lemma_value_at();
    lemma_pack_words(
        f.source.ord() as u32,
        f.target.ord() as u32,
        f.piece.spec_value() as u32,
        f.captured.spec_value() as u32,
        f.promoted.spec_value() as u32,
        flag(f.en_passant),
        flag(f.castling),
        flag(f.double_push),
    );
}

/// Packing what a code unpacks to gives the code back: the two are inverse
/// to each other, so no two moves share a word.
pub proof fn lemma_pack_unpack(d: u32)
    requires
        is_code(d),
    ensures
        pack(unpack(d)) == d,
{
    lemma_unpack_words(d);
    Square::lemma_ord_at((d & 0x3f) as int);
    Square::lemma_ord_at(((d & 0xfc0) >> 6) as int);
    Piece::at(((d & 0xf000) >> 12) as int).lemma_value_at();
    Piece::at(((d & 0xf0000) >> 16) as int).lemma_value_at();
    Piece::at(((d & 0xf00000) >> 20) as int).lemma_value_at();
}

/// A move, packed into one word.
#[derive(Clone, Copy, Debug, PartialEq, Eq, Structural)]
pub struct Move {
    data: u32,
}

impl View for Move {
    type V = MoveParts;

    closed spec fn view(&self) -> MoveParts {
        unpack(self.data)
    }
}

impl Move {
    #[verifier::type_invariant]
    spec fn well_formed(self) -> bool {
        is_code(self.data)
    }

    /// The word that holds the move.
    pub closed spec fn code(self) -> u32 {
        self.data
    }

    /// The move that stands for no move.
    pub closed spec fn null() -> Move {
        Move { data: pack(Move::null_parts()) }
    }

    /// The move that stands for no move says what the end-of-list marker says.
    pub proof fn lemma_null()
        ensures
            Move::null()@ == Move::null_parts(),
    {
        lemma_unpack_pack(Move::null_parts());
    }

    /// The end-of-list marker: no piece, from a8 to a8.
    pub open spec fn null_parts() -> MoveParts {
        MoveParts {
            source: Square::A8,
            target: Square::A8,
            piece: Piece::Empty,
            captured: Piece::Empty,
            promoted: Piece::Empty,
            en_passant: false,
            castling: false,
            double_push: false,
        }
    }

    /// Two moves whose words are codes and whose parts agree are equal.
    pub proof fn lemma_same_parts(self, other: Move)
        requires
            is_code(self.code()),
            is_code(other.code()),
            self@ == other@,
        ensures
            self == other,
    {
        lemma_pack_unpack(self.data);
        lemma_pack_unpack(other.data);
    }

    pub fn encode_move(
        source_square: Square,
        target_square: Square,
        piece: Piece,
        captured_piece: Piece,
        promoted_piece: Piece,
        en_passant: bool,
        castling: bool,
        double_push: bool,
    ) -> (r: Move)
        ensures
            r@ == (MoveParts {
                source: source_square,
                target: target_square,
                piece: piece,
                captured: captured_piece,
                promoted: promoted_piece,
                en_passant: en_passant,
                castling: castling,
                double_push: double_push,
            }),
            r.code() == pack(r@),
            is_code(r.code()),
    {
        let ghost parts = MoveParts {
            source: source_square,
            target: target_square,
            piece: piece,
            captured: captured_piece,
            promoted: promoted_piece,
            en_passant: en_passant,
            castling: castling,
            double_push: double_push,
        };
        proof {
            lemma_unpack_pack(parts);
        }
        let e: u32 = if en_passant { 1 } else { 0 };
        let k: u32 = if castling { 1 } else { 0 };
        let dp: u32 = if double_push { 1 } else { 0 };
        let data: u32 = (source_square.index() as u32) | (target_square.index() as u32) << 6 | (
        piece.value() as u32) << 12 | (captured_piece.value() as u32) << 16 | (
        promoted_piece.value() as u32) << 20 | e << 24 | k << 25 | dp << 26;
        assert(data == pack(parts));
        Move { data }
    }

    pub fn source_square(&self) -> (r: Square)
        ensures
            r == self@.source,
    {
        proof {
            use_type_invariant(self);
            lemma_unpack_words(self.data);
        }
        Square::get_by_index((self.data & 0x3f) as u8)
    }

    pub fn target_square(&self) -> (r: Square)
        ensures
            r == self@.target,
    {
        proof {
            use_type_invariant(self);
            lemma_unpack_words(self.data);
        }
        Square::get_by_index(((self.data & 0xfc0) >> 6) as u8)
    }

    pub fn piece(&self) -> (r: Piece)
        ensures
            r == self@.piece,
    {
        proof {
            use_type_invariant(self);
            lemma_unpack_words(self.data);
        }
        Piece::get_by_index(((self.data & 0xf000) >> 12) as u8)
    }

    pub fn captured_piece(&self) -> (r: Piece)
        ensures
            r == self@.captured,
    {
        proof {
            use_type_invariant(self);
            lemma_unpack_words(self.data);
        }
        Piece::get_by_index(((self.data & 0xf0000) >> 16) as u8)
    }

    pub fn promoted_piece(&self) -> (r: Piece)
        ensures
            r == self@.promoted,
    {
        proof {
            use_type_invariant(self);
            lemma_unpack_words(self.data);
        }
        Piece::get_by_index(((self.data & 0xf00000) >> 20) as u8)
    }

    pub fn en_passant(&self) -> (r: bool)
        ensures
            r == self@.en_passant,
    {
        self.data & 0x1000000 > 0
    }

    pub fn castling(&self) -> (r: bool)
        ensures
            r == self@.castling,
    {
        self.data & 0x2000000 > 0
    }

    pub fn double_push(&self) -> (r: bool)
        ensures
            r == self@.double_push,
    {
        self.data & 0x4000000 > 0
    }
}

impl Default for Move {
    fn default() -> (r: Move)
        ensures
            r@ == Move::null_parts(),
    {
        Move::encode_move(
            Square::A8,
            Square::A8,
            Piece::Empty,
            Piece::Empty,
            Piece::Empty,
            false,
            false,
            false,
        )
    }
}

} // verus!
