use vstd::prelude::*;

verus! {

/// A side of the game. `Both` stands for neither side in particular: it is
/// only used to ask for the occupancy of the whole board.
#[derive(Clone, Copy, Debug, PartialEq, Eq, Structural)]
pub enum Color {
    White,
    Black,
    Both,
}

impl Default for Color {
    fn default() -> (r: Color)
        ensures
            r == Color::White,
    {
        Color::White
    }
}

impl Color {
    pub open spec fn spec_opposite(&self) -> Color {
        if *self == Color::White {
            Color::Black
        } else {
            Color::White
        }
    }

    /// The number under which the tables keep this colour.
    pub open spec fn ord(self) -> int {
        match self {
            Color::White => 0,
            Color::Black => 1,
            Color::Both => 2,
        }
    }

    /// Whether the colour is one of the two sides.
    pub open spec fn is_side(self) -> bool {
        self != Color::Both
    }

    #[verifier::when_used_as_spec(spec_opposite)]
    pub fn opposite(&self) -> (r: Color)
        ensures
            r == self.spec_opposite(),
    {
        match self {
            Color::White => Color::Black,
            _ => Color::White,
        }
    }

    /// The number under which the tables keep this colour.
    pub fn index(&self) -> (r: usize)
        ensures
            r == self.ord(),
    {
        match self {
            Color::White => 0,
            Color::Black => 1,
            Color::Both => 2,
        }
    }
}

/// The twelve kinds of men, and `Empty` for an empty square.
#[derive(Clone, Copy, Debug, PartialEq, Eq, Structural)]
pub enum Piece {
    WhitePawn,
    WhiteQueen,
    WhiteKing,
    WhiteBishop,
    WhiteKnight,
    WhiteRook,
    BlackPawn,
    BlackQueen,
    BlackKing,
    BlackBishop,
    BlackKnight,
    BlackRook,
    Empty,
}

impl Piece {
    pub open spec fn spec_value(&self) -> u8 {
        match self {
            Piece::WhitePawn => 0,
            Piece::WhiteQueen => 1,
            Piece::WhiteKing => 2,
            Piece::WhiteBishop => 3,
            Piece::WhiteKnight => 4,
            Piece::WhiteRook => 5,
            Piece::BlackPawn => 6,
            Piece::BlackQueen => 7,
            Piece::BlackKing => 8,
            Piece::BlackBishop => 9,
            Piece::BlackKnight => 10,
            Piece::BlackRook => 11,
            Piece::Empty => 12,
        }
    }

    /// The piece with the given number; `Empty` for 12 and above.
    pub open spec fn at(n: int) -> Piece {
        if n == 0 {
            Piece::WhitePawn
        } else if n == 1 {
            Piece::WhiteQueen
        } else if n == 2 {
            Piece::WhiteKing
        } else if n == 3 {
            Piece::WhiteBishop
        } else if n == 4 {
            Piece::WhiteKnight
        } else if n == 5 {
            Piece::WhiteRook
        } else if n == 6 {
            Piece::BlackPawn
        } else if n == 7 {
            Piece::BlackQueen
        } else if n == 8 {
            Piece::BlackKing
        } else if n == 9 {
            Piece::BlackBishop
        } else if n == 10 {
            Piece::BlackKnight
        } else if n == 11 {
            Piece::BlackRook
        } else {
            Piece::Empty
        }
    }

    pub open spec fn spec_color(&self) -> Color {
        if self.spec_value() > 5 {
            Color::Black
        } else {
            Color::White
        }
    }

    pub open spec fn spec_to_color(&self, color: Color) -> Piece {
        if *self == Piece::Empty {
            Piece::Empty
        } else {
            match color {
                Color::White => Piece::at(self.spec_value() as int % 6),
                Color::Black => Piece::at(self.spec_value() as int % 6 + 6),
                Color::Both => *self,
            }
        }
    }

    pub open spec fn spec_is_pawn(&self) -> bool {
        *self == Piece::WhitePawn || *self == Piece::BlackPawn
    }

    pub open spec fn spec_is_king(&self) -> bool {
        *self == Piece::WhiteKing || *self == Piece::BlackKing
    }

    pub open spec fn spec_is_bishop(&self) -> bool {
        *self == Piece::WhiteBishop || *self == Piece::BlackBishop
    }

    pub open spec fn spec_is_rook(&self) -> bool {
        *self == Piece::WhiteRook || *self == Piece::BlackRook
    }

    pub open spec fn spec_is_knight(&self) -> bool {
        *self == Piece::WhiteKnight || *self == Piece::BlackKnight
    }

    pub open spec fn spec_is_queen(&self) -> bool {
        *self == Piece::WhiteQueen || *self == Piece::BlackQueen
    }

    pub open spec fn spec_is_none(&self) -> bool {
        *self == Piece::Empty
    }

    /// Whether this is a man of the given side.
    pub open spec fn belongs_to(self, color: Color) -> bool {
        self != Piece::Empty && color.is_side() && self.spec_color() == color
    }

    /// The material weight of the piece: positive for White, negative for Black.
    pub open spec fn weight(self) -> int {
        match self {
            Piece::WhitePawn => 100,
            Piece::WhiteKnight => 300,
            Piece::WhiteBishop => 350,
            Piece::WhiteRook => 500,
            Piece::WhiteQueen => 1000,
            Piece::WhiteKing => 10000,
            Piece::BlackPawn => -100,
            Piece::BlackKnight => -300,
            Piece::BlackBishop => -350,
            Piece::BlackRook => -500,
            Piece::BlackQueen => -1000,
            Piece::BlackKing => -10000,
            Piece::Empty => 0,
        }
    }

    /// `spec_value` and `at` are inverse to each other.
    pub proof fn lemma_value_at(self)
        ensures
            0 <= self.spec_value() <= 12,
            Piece::at(self.spec_value() as int) == self,
    {
    }

    pub fn get_by_index(n: u8) -> (r: Piece)
        requires
            n <= 12,
        ensures
            r == Piece::at(n as int),
            r.spec_value() == n,
    {
        match n {
            0 => Piece::WhitePawn,
            1 => Piece::WhiteQueen,
            2 => Piece::WhiteKing,
            3 => Piece::WhiteBishop,
            4 => Piece::WhiteKnight,
            5 => Piece::WhiteRook,
            6 => Piece::BlackPawn,
            7 => Piece::BlackQueen,
            8 => Piece::BlackKing,
            9 => Piece::BlackBishop,
            10 => Piece::BlackKnight,
            11 => Piece::BlackRook,
            _ => Piece::Empty,
        }
    }

    #[verifier::when_used_as_spec(spec_value)]
    pub fn value(&self) -> (r: u8)
        ensures
            r == self.spec_value(),
            r <= 12,
    {
        match self {
            Piece::WhitePawn => 0,
            Piece::WhiteQueen => 1,
            Piece::WhiteKing => 2,
            Piece::WhiteBishop => 3,
            Piece::WhiteKnight => 4,
            Piece::WhiteRook => 5,
            Piece::BlackPawn => 6,
            Piece::BlackQueen => 7,
            Piece::BlackKing => 8,
            Piece::BlackBishop => 9,
            Piece::BlackKnight => 10,
            Piece::BlackRook => 11,
            Piece::Empty => 12,
        }
    }

    #[verifier::when_used_as_spec(spec_color)]
    pub fn color(&self) -> (r: Color)
        ensures
            r == self.spec_color(),
    {
        if self.value() > 5 {
            return Color::Black;
        }
        Color::White
    }

    /// The same kind of man of the other side.
    pub fn opposite_color(&self) -> (r: Piece)
        requires
            *self != Piece::Empty,
        ensures
            r == self.spec_to_color(self.spec_color().spec_opposite()),
            r != Piece::Empty,
            r.spec_color() != self.spec_color(),
    {
        match self {
            Piece::WhitePawn => Piece::BlackPawn,
            Piece::WhiteQueen => Piece::BlackQueen,
            Piece::WhiteKing => Piece::BlackKing,
            Piece::WhiteBishop => Piece::BlackBishop,
            Piece::WhiteKnight => Piece::BlackKnight,
            Piece::WhiteRook => Piece::BlackRook,
            Piece::BlackPawn => Piece::WhitePawn,
            Piece::BlackQueen => Piece::WhiteQueen,
            Piece::BlackKing => Piece::WhiteKing,
            Piece::BlackBishop => Piece::WhiteBishop,
            Piece::BlackKnight => Piece::WhiteKnight,
            _ => Piece::WhiteRook,
        }
    }

    /// The same kind of man of the given side; `Empty` and a request for
    /// `Both` leave the piece as it is.
    #[verifier::when_used_as_spec(spec_to_color)]
    pub fn to_color(&self, color: Color) -> (r: Piece)
        ensures
            r == self.spec_to_color(color),
    {
        match color {
            Color::White => match self {
                Piece::BlackPawn => Piece::WhitePawn,
                Piece::BlackQueen => Piece::WhiteQueen,
                Piece::BlackKing => Piece::WhiteKing,
                Piece::BlackBishop => Piece::WhiteBishop,
                Piece::BlackKnight => Piece::WhiteKnight,
                Piece::BlackRook => Piece::WhiteRook,
                _ => *self,
            },
            Color::Black => match self {
                Piece::WhitePawn => Piece::BlackPawn,
                Piece::WhiteQueen => Piece::BlackQueen,
                Piece::WhiteKing => Piece::BlackKing,
                Piece::WhiteBishop => Piece::BlackBishop,
                Piece::WhiteKnight => Piece::BlackKnight,
                Piece::WhiteRook => Piece::BlackRook,
                _ => *self,
            },
            Color::Both => *self,
        }
    }

    #[verifier::when_used_as_spec(spec_is_pawn)]
    pub fn is_pawn(&self) -> (r: bool)
        ensures
            r == self.spec_is_pawn(),
    {
        matches!(self, Piece::WhitePawn | Piece::BlackPawn)
    }

    #[verifier::when_used_as_spec(spec_is_king)]
    pub fn is_king(&self) -> (r: bool)
        ensures
            r == self.spec_is_king(),
    {
        matches!(self, Piece::WhiteKing | Piece::BlackKing)
    }

    #[verifier::when_used_as_spec(spec_is_bishop)]
    pub fn is_bishop(&self) -> (r: bool)
        ensures
            r == self.spec_is_bishop(),
    {
        matches!(self, Piece::WhiteBishop | Piece::BlackBishop)
    }

    #[verifier::when_used_as_spec(spec_is_rook)]
    pub fn is_rook(&self) -> (r: bool)
        ensures
            r == self.spec_is_rook(),
    {
        matches!(self, Piece::WhiteRook | Piece::BlackRook)
    }

    #[verifier::when_used_as_spec(spec_is_knight)]
    pub fn is_knight(&self) -> (r: bool)
        ensures
            r == self.spec_is_knight(),
    {
        matches!(self, Piece::WhiteKnight | Piece::BlackKnight)
    }

    #[verifier::when_used_as_spec(spec_is_queen)]
    pub fn is_queen(&self) -> (r: bool)
        ensures
            r == self.spec_is_queen(),
    {
        matches!(self, Piece::WhiteQueen | Piece::BlackQueen)
    }

    #[verifier::when_used_as_spec(spec_is_none)]
    pub fn is_none(&self) -> (r: bool)
        ensures
            r == self.spec_is_none(),
    {
        matches!(self, Piece::Empty)
    }

    pub fn eval_value(&self) -> (r: i16)
        ensures
            r == self.weight(),
    {
        match self {
            Piece::WhitePawn => 100,
            Piece::WhiteKnight => 300,
            Piece::WhiteBishop => 350,
            Piece::WhiteRook => 500,
            Piece::WhiteQueen => 1000,
            Piece::WhiteKing => 10000,
            Piece::BlackPawn => -100,
            Piece::BlackKnight => -300,
            Piece::BlackBishop => -350,
            Piece::BlackRook => -500,
            Piece::BlackQueen => -1000,
            Piece::BlackKing => -10000,
            _ => 0,
        }
    }
}

} // verus!
