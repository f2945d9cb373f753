use vstd::prelude::*;
use super::bit_board::BitBoard;
use super::bit_board::bit;
use super::bit_board::lemma_bit_single;
use super::bit_board::lemma_popcount_single;
use super::bit_board::popcount;

verus! {

/// The one-bit word of each square, by the index of the square.
pub fn init_bb_squares() -> (r: [u64; 64])
    ensures
        forall|i: int| 0 <= i < 64 ==> r[i] == 1u64 << (i as u64),
{
    let mut bb_squares = [0u64;64];
    let mut i: usize = 0;
    while i < 64
        invariant
            i <= 64,
            forall|j: int| 0 <= j < i ==> bb_squares[j] == 1u64 << (j as u64),
        decreases 64 - i,
    {
        bb_squares[i] = 1u64 << i;
        i += 1;
    }
    bb_squares
}

/// One of the 64 squares, row by row from a8 (index 0) to h1 (index 63).
#[derive(Clone, Copy, Debug, PartialEq, Eq, Structural)]
pub enum Square {
    A8, B8, C8, D8, E8, F8, G8, H8,
    A7, B7, C7, D7, E7, F7, G7, H7,
    A6, B6, C6, D6, E6, F6, G6, H6,
    A5, B5, C5, D5, E5, F5, G5, H5,
    A4, B4, C4, D4, E4, F4, G4, H4,
    A3, B3, C3, D3, E3, F3, G3, H3,
    A2, B2, C2, D2, E2, F2, G2, H2,
    A1, B1, C1, D1, E1, F1, G1, H1,
}

impl Square {
    /// The index of the square, from 0 (a8) to 63 (h1).
    pub open spec fn ord(self) -> int {
        match self {
            Square::A8 => 0,
            Square::B8 => 1,
            Square::C8 => 2,
            Square::D8 => 3,
            Square::E8 => 4,
            Square::F8 => 5,
            Square::G8 => 6,
            Square::H8 => 7,
            Square::A7 => 8,
            Square::B7 => 9,
            Square::C7 => 10,
            Square::D7 => 11,
            Square::E7 => 12,
            Square::F7 => 13,
            Square::G7 => 14,
            Square::H7 => 15,
            Square::A6 => 16,
            Square::B6 => 17,
            Square::C6 => 18,
            Square::D6 => 19,
            Square::E6 => 20,
            Square::F6 => 21,
            Square::G6 => 22,
            Square::H6 => 23,
            Square::A5 => 24,
            Square::B5 => 25,
            Square::C5 => 26,
            Square::D5 => 27,
            Square::E5 => 28,
            Square::F5 => 29,
            Square::G5 => 30,
            Square::H5 => 31,
            Square::A4 => 32,
            Square::B4 => 33,
            Square::C4 => 34,
            Square::D4 => 35,
            Square::E4 => 36,
            Square::F4 => 37,
            Square::G4 => 38,
            Square::H4 => 39,
            Square::A3 => 40,
            Square::B3 => 41,
            Square::C3 => 42,
            Square::D3 => 43,
            Square::E3 => 44,
            Square::F3 => 45,
            Square::G3 => 46,
            Square::H3 => 47,
            Square::A2 => 48,
            Square::B2 => 49,
            Square::C2 => 50,
            Square::D2 => 51,
            Square::E2 => 52,
            Square::F2 => 53,
            Square::G2 => 54,
            Square::H2 => 55,
            Square::A1 => 56,
            Square::B1 => 57,
            Square::C1 => 58,
            Square::D1 => 59,
            Square::E1 => 60,
            Square::F1 => 61,
            Square::G1 => 62,
            Square::H1 => 63,
        }
    }

    /// The square with the given index; h1 for an index outside `0..63`.
    pub open spec fn at(i: int) -> Square {
        if i == 0 {
            Square::A8
        } else if i == 1 {
            Square::B8
        } else if i == 2 {
            Square::C8
        } else if i == 3 {
            Square::D8
        } else if i == 4 {
            Square::E8
        } else if i == 5 {
            Square::F8
        } else if i == 6 {
            Square::G8
        } else if i == 7 {
            Square::H8
        } else if i == 8 {
            Square::A7
        } else if i == 9 {
            Square::B7
        } else if i == 10 {
            Square::C7
        } else if i == 11 {
            Square::D7
        } else if i == 12 {
            Square::E7
        } else if i == 13 {
            Square::F7
        } else if i == 14 {
            Square::G7
        } else if i == 15 {
            Square::H7
        } else if i == 16 {
            Square::A6
        } else if i == 17 {
            Square::B6
        } else if i == 18 {
            Square::C6
        } else if i == 19 {
            Square::D6
        } else if i == 20 {
            Square::E6
        } else if i == 21 {
            Square::F6
        } else if i == 22 {
            Square::G6
        } else if i == 23 {
            Square::H6
        } else if i == 24 {
            Square::A5
        } else if i == 25 {
            Square::B5
        } else if i == 26 {
            Square::C5
        } else if i == 27 {
            Square::D5
        } else if i == 28 {
            Square::E5
        } else if i == 29 {
            Square::F5
        } else if i == 30 {
            Square::G5
        } else if i == 31 {
            Square::H5
        } else if i == 32 {
            Square::A4
        } else if i == 33 {
            Square::B4
        } else if i == 34 {
            Square::C4
        } else if i == 35 {
            Square::D4
        } else if i == 36 {
            Square::E4
        } else if i == 37 {
            Square::F4
        } else if i == 38 {
            Square::G4
        } else if i == 39 {
            Square::H4
        } else if i == 40 {
            Square::A3
        } else if i == 41 {
            Square::B3
        } else if i == 42 {
            Square::C3
        } else if i == 43 {
            Square::D3
        } else if i == 44 {
            Square::E3
        } else if i == 45 {
            Square::F3
        } else if i == 46 {
            Square::G3
        } else if i == 47 {
            Square::H3
        } else if i == 48 {
            Square::A2
        } else if i == 49 {
            Square::B2
        } else if i == 50 {
            Square::C2
        } else if i == 51 {
            Square::D2
        } else if i == 52 {
            Square::E2
        } else if i == 53 {
            Square::F2
        } else if i == 54 {
            Square::G2
        } else if i == 55 {
            Square::H2
        } else if i == 56 {
            Square::A1
        } else if i == 57 {
            Square::B1
        } else if i == 58 {
            Square::C1
        } else if i == 59 {
            Square::D1
        } else if i == 60 {
            Square::E1
        } else if i == 61 {
            Square::F1
        } else if i == 62 {
            Square::G1
        } else {
            Square::H1
        }
    }

    /// The row of the square, counted from the top: 0 is the eighth rank.
    pub open spec fn row(self) -> int {
        self.ord() / 8
    }

    /// The column of the square: 0 is the a-file.
    pub open spec fn col(self) -> int {
        self.ord() % 8
    }

    /// `ord` and `at` are inverse to each other on the 64 squares.
    pub proof fn lemma_ord_at(i: int)
        requires
            0 <= i < 64,
        ensures
            Square::at(i).ord() == i,
    {
    }

    /// Every square has an index below 64 and is found again from it.
    pub proof fn lemma_at_ord(self)
        ensures
            0 <= self.ord() < 64,
            Square::at(self.ord()) == self,
    {
    }

    pub fn index(&self) -> (r: u8)
        ensures
            r == self.ord(),
            r < 64,
    {
        match self {
            Square::A8 => 0,
            Square::B8 => 1,
            Square::C8 => 2,
            Square::D8 => 3,
            Square::E8 => 4,
            Square::F8 => 5,
            Square::G8 => 6,
            Square::H8 => 7,
            Square::A7 => 8,
            Square::B7 => 9,
            Square::C7 => 10,
            Square::D7 => 11,
            Square::E7 => 12,
            Square::F7 => 13,
            Square::G7 => 14,
            Square::H7 => 15,
            Square::A6 => 16,
            Square::B6 => 17,
            Square::C6 => 18,
            Square::D6 => 19,
            Square::E6 => 20,
            Square::F6 => 21,
            Square::G6 => 22,
            Square::H6 => 23,
            Square::A5 => 24,
            Square::B5 => 25,
            Square::C5 => 26,
            Square::D5 => 27,
            Square::E5 => 28,
            Square::F5 => 29,
            Square::G5 => 30,
            Square::H5 => 31,
            Square::A4 => 32,
            Square::B4 => 33,
            Square::C4 => 34,
            Square::D4 => 35,
            Square::E4 => 36,
            Square::F4 => 37,
            Square::G4 => 38,
            Square::H4 => 39,
            Square::A3 => 40,
            Square::B3 => 41,
            Square::C3 => 42,
            Square::D3 => 43,
            Square::E3 => 44,
            Square::F3 => 45,
            Square::G3 => 46,
            Square::H3 => 47,
            Square::A2 => 48,
            Square::B2 => 49,
            Square::C2 => 50,
            Square::D2 => 51,
            Square::E2 => 52,
            Square::F2 => 53,
            Square::G2 => 54,
            Square::H2 => 55,
            Square::A1 => 56,
            Square::B1 => 57,
            Square::C1 => 58,
            Square::D1 => 59,
            Square::E1 => 60,
            Square::F1 => 61,
            Square::G1 => 62,
            Square::H1 => 63,
        }
    }

    pub fn rank(&self) -> (r: u8)
        ensures
            r == self.row(),
            r < 8,
    {
        self.index() / 8
    }

    pub fn file(&self) -> (r: u8)
        ensures
            r == self.col(),
            r < 8,
    {
        self.index() % 8
    }

    pub fn from_file_and_rank(file: u8, rank: u8) -> (r: Square)
        requires
            file < 8,
            rank < 8,
        ensures
            r == Square::at(rank * 8 + file),
            r.col() == file,
            r.row() == rank,
    {
        Self::get_by_index(rank * 8 + file)
    }

    pub fn get_by_index(n: u8) -> (r: Square)
        requires
            n < 64,
        ensures
            r == Square::at(n as int),
            r.ord() == n,
    {
        match n {
            0 => Square::A8,
            1 => Square::B8,
            2 => Square::C8,
            3 => Square::D8,
            4 => Square::E8,
            5 => Square::F8,
            6 => Square::G8,
            7 => Square::H8,
            8 => Square::A7,
            9 => Square::B7,
            10 => Square::C7,
            11 => Square::D7,
            12 => Square::E7,
            13 => Square::F7,
            14 => Square::G7,
            15 => Square::H7,
            16 => Square::A6,
            17 => Square::B6,
            18 => Square::C6,
            19 => Square::D6,
            20 => Square::E6,
            21 => Square::F6,
            22 => Square::G6,
            23 => Square::H6,
            24 => Square::A5,
            25 => Square::B5,
            26 => Square::C5,
            27 => Square::D5,
            28 => Square::E5,
            29 => Square::F5,
            30 => Square::G5,
            31 => Square::H5,
            32 => Square::A4,
            33 => Square::B4,
            34 => Square::C4,
            35 => Square::D4,
            36 => Square::E4,
            37 => Square::F4,
            38 => Square::G4,
            39 => Square::H4,
            40 => Square::A3,
            41 => Square::B3,
            42 => Square::C3,
            43 => Square::D3,
            44 => Square::E3,
            45 => Square::F3,
            46 => Square::G3,
            47 => Square::H3,
            48 => Square::A2,
            49 => Square::B2,
            50 => Square::C2,
            51 => Square::D2,
            52 => Square::E2,
            53 => Square::F2,
            54 => Square::G2,
            55 => Square::H2,
            56 => Square::A1,
            57 => Square::B1,
            58 => Square::C1,
            59 => Square::D1,
            60 => Square::E1,
            61 => Square::F1,
            62 => Square::G1,
            _ => Square::H1,
        }
    }

    /// The one-square set of this square.
    pub fn get_bitboard(&self) -> (r: BitBoard)
        ensures
            r.0 == 1u64 << (self.ord() as u64),
            forall|i: int| #![trigger bit(r.0, i)] bit(r.0, i) == (i == self.ord()),
            popcount(r.0) == 1,
    {
        proof {
            lemma_bit_single(self.ord());
            lemma_popcount_single(self.ord());
        }
        BitBoard::from(1u64 << self.index())
    }

    /// The square `increment` rows further down the board, in the same column.
    pub fn add_rank(&self, increment: i8) -> (r: Square)
        requires
            0 <= self.row() + increment < 8,
        ensures
            r == Square::at(self.ord() + 8 * increment),
            r.row() == self.row() + increment,
            r.col() == self.col(),
    {
        let rank: i8 = self.rank() as i8 + increment;
        Self::from_file_and_rank(self.file(), rank as u8)
    }

    /// The square `increment` columns to the right, in the same row.
    pub fn add_file(&self, increment: i8) -> (r: Square)
        requires
            0 <= self.col() + increment < 8,
        ensures
            r == Square::at(self.ord() + increment),
            r.col() == self.col() + increment,
            r.row() == self.row(),
    {
        let file: i8 = self.file() as i8 + increment;
        Self::from_file_and_rank(file as u8, self.rank())
    }
}

} // verus!
