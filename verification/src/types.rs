use vstd::prelude::*;
use vstd::string::StringExecFns;

verus! {

/// The two players of a Xiangqi game.
#[derive(Clone, Copy, PartialEq, Eq, Structural, Debug)]
pub enum Side {
    Red,
    Black,
}

impl Side {
    /// Number of sides.
    pub const COUNT: usize = 2;

    /// The numeric representation of the side (Red = 0, Black = 1).
    pub open spec fn idx(self) -> int {
        match self {
            Side::Red => 0,
            Side::Black => 1,
        }
    }

    /// The side whose numeric representation is `i`.
    pub open spec fn from_idx(i: int) -> Side {
        if i == 0 { Side::Red } else { Side::Black }
    }

    pub open spec fn opp(self) -> Side {
        match self {
            Side::Red => Side::Black,
            Side::Black => Side::Red,
        }
    }

    /// Returns the numeric representation of the side.
    pub fn index(&self) -> (r: usize)
        ensures
            r == self.idx(),
            r < 2,
    {
        match self {
            Side::Red => 0,
            Side::Black => 1,
        }
    }

    /// Builds a side from its numeric representation.
    pub fn from_repr(repr: u8) -> (r: Option<Side>)
        ensures
            repr < 2 ==> r == Some(Side::from_idx(repr as int)),
            repr >= 2 ==> r is None,
    {
        if repr == 0 {
            Some(Side::Red)
        } else if repr == 1 {
            Some(Side::Black)
        } else {
            None
        }
    }

    /// Returns the opposing player's side.
    pub fn opposite(&self) -> (r: Side)
        ensures
            r == self.opp(),
            r != *self,
    {
        match self {
            Side::Red => Side::Black,
            Side::Black => Side::Red,
        }
    }

    /// Returns 1 for Red and -1 for Black.
    pub fn signum(&self) -> (r: i32)
        ensures
            r == (if *self == Side::Red { 1int } else { -1int }),
    {
        match self {
            Side::Red => 1,
            Side::Black => -1,
        }
    }
}

/// The 10 ranks (horizontal rows) of the board, from R0 (Red's back rank) to R9.
#[derive(Clone, Copy, PartialEq, Eq, Structural, Debug)]
pub enum Rank {
    R0, R1, R2, R3, R4, R5, R6, R7, R8, R9,
}

/// The 9 files (vertical columns) of the board, from FA ('a') to FI ('i').
#[derive(Clone, Copy, PartialEq, Eq, Structural, Debug)]
pub enum File {
    FA, FB, FC, FD, FE, FF, FG, FH, FI,
}

impl Rank {
    /// Number of values of this type.
    pub const COUNT: usize = 10;

    /// The numeric representation of the value.
    pub open spec fn idx(self) -> int {
        match self {
            Rank::R0 => 0,
            Rank::R1 => 1,
            Rank::R2 => 2,
            Rank::R3 => 3,
            Rank::R4 => 4,
            Rank::R5 => 5,
            Rank::R6 => 6,
            Rank::R7 => 7,
            Rank::R8 => 8,
            Rank::R9 => 9,
        }
    }

    /// The value whose numeric representation is `i` (meaningful for `0 <= i < COUNT`).
    pub open spec fn from_idx(i: int) -> Rank {
        if i == 0 { Rank::R0 } else if i == 1 { Rank::R1 } else if i == 2 { Rank::R2 } else if i == 3 { Rank::R3 } else if i == 4 { Rank::R4 } else if i == 5 { Rank::R5 } else if i == 6 { Rank::R6 } else if i == 7 { Rank::R7 } else if i == 8 { Rank::R8 } else { Rank::R9 }
    }

    /// Returns the numeric representation of the value.
    pub fn index(&self) -> (r: u8)
        ensures
            r == self.idx(),
            r < 10,
    {
        match self {
            Rank::R0 => 0,
            Rank::R1 => 1,
            Rank::R2 => 2,
            Rank::R3 => 3,
            Rank::R4 => 4,
            Rank::R5 => 5,
            Rank::R6 => 6,
            Rank::R7 => 7,
            Rank::R8 => 8,
            Rank::R9 => 9,
        }
    }

    /// Builds a value from its numeric representation, or `None` when out of range.
    pub fn from_repr(repr: u8) -> (r: Option<Rank>)
        ensures
            repr < 10 ==> r == Some(Rank::from_idx(repr as int)),
            repr >= 10 ==> r is None,
    {
        match repr {
            0 => Some(Rank::R0),
            1 => Some(Rank::R1),
            2 => Some(Rank::R2),
            3 => Some(Rank::R3),
            4 => Some(Rank::R4),
            5 => Some(Rank::R5),
            6 => Some(Rank::R6),
            7 => Some(Rank::R7),
            8 => Some(Rank::R8),
            9 => Some(Rank::R9),
            _ => None,
        }
    }
}

/// Each value is recovered from its numeric representation, and the
/// representation stays in range.
pub broadcast proof fn lemma_rank_idx(x: Rank)
    ensures
        0 <= #[trigger] x.idx() < 10,
        Rank::from_idx(x.idx()) == x,
{
}

/// The representation of the value built from `i` is `i`.
pub broadcast proof fn lemma_rank_from_idx(i: int)
    requires
        0 <= i < 10,
    ensures
        #[trigger] Rank::from_idx(i).idx() == i,
{
}

impl File {
    /// Number of values of this type.
    pub const COUNT: usize = 9;

    /// The numeric representation of the value.
    pub open spec fn idx(self) -> int {
        match self {
            File::FA => 0,
            File::FB => 1,
            File::FC => 2,
            File::FD => 3,
            File::FE => 4,
            File::FF => 5,
            File::FG => 6,
            File::FH => 7,
            File::FI => 8,
        }
    }

    /// The value whose numeric representation is `i` (meaningful for `0 <= i < COUNT`).
    pub open spec fn from_idx(i: int) -> File {
        if i == 0 { File::FA } else if i == 1 { File::FB } else if i == 2 { File::FC } else if i == 3 { File::FD } else if i == 4 { File::FE } else if i == 5 { File::FF } else if i == 6 { File::FG } else if i == 7 { File::FH } else { File::FI }
    }

    /// Returns the numeric representation of the value.
    pub fn index(&self) -> (r: u8)
        ensures
            r == self.idx(),
            r < 9,
    {
        match self {
            File::FA => 0,
            File::FB => 1,
            File::FC => 2,
            File::FD => 3,
            File::FE => 4,
            File::FF => 5,
            File::FG => 6,
            File::FH => 7,
            File::FI => 8,
        }
    }

    /// Builds a value from its numeric representation, or `None` when out of range.
    pub fn from_repr(repr: u8) -> (r: Option<File>)
        ensures
            repr < 9 ==> r == Some(File::from_idx(repr as int)),
            repr >= 9 ==> r is None,
    {
        match repr {
            0 => Some(File::FA),
            1 => Some(File::FB),
            2 => Some(File::FC),
            3 => Some(File::FD),
            4 => Some(File::FE),
            5 => Some(File::FF),
            6 => Some(File::FG),
            7 => Some(File::FH),
            8 => Some(File::FI),
            _ => None,
        }
    }
}

/// Each value is recovered from its numeric representation, and the
/// representation stays in range.
pub broadcast proof fn lemma_file_idx(x: File)
    ensures
        0 <= #[trigger] x.idx() < 9,
        File::from_idx(x.idx()) == x,
{
}

/// The representation of the value built from `i` is `i`.
pub broadcast proof fn lemma_file_from_idx(i: int)
    requires
        0 <= i < 9,
    ensures
        #[trigger] File::from_idx(i).idx() == i,
{
}

/// The 90 squares of the board, in rank-major order from A0 (0) to I9 (89).
#[derive(Clone, Copy, PartialEq, Eq, Structural, Debug)]
pub enum Square {
    A0, B0, C0, D0, E0, F0, G0, H0, I0,
    A1, B1, C1, D1, E1, F1, G1, H1, I1,
    A2, B2, C2, D2, E2, F2, G2, H2, I2,
    A3, B3, C3, D3, E3, F3, G3, H3, I3,
    A4, B4, C4, D4, E4, F4, G4, H4, I4,
    A5, B5, C5, D5, E5, F5, G5, H5, I5,
    A6, B6, C6, D6, E6, F6, G6, H6, I6,
    A7, B7, C7, D7, E7, F7, G7, H7, I7,
    A8, B8, C8, D8, E8, F8, G8, H8, I8,
    A9, B9, C9, D9, E9, F9, G9, H9, I9,
}

impl Square {
    /// Number of values of this type.
    pub const COUNT: usize = 90;

    /// The numeric representation of the value.
    pub open spec fn idx(self) -> int {
        match self {
            Square::A0 => 0,
            Square::B0 => 1,
            Square::C0 => 2,
            Square::D0 => 3,
            Square::E0 => 4,
            Square::F0 => 5,
            Square::G0 => 6,
            Square::H0 => 7,
            Square::I0 => 8,
            Square::A1 => 9,
            Square::B1 => 10,
            Square::C1 => 11,
            Square::D1 => 12,
            Square::E1 => 13,
            Square::F1 => 14,
            Square::G1 => 15,
            Square::H1 => 16,
            Square::I1 => 17,
            Square::A2 => 18,
            Square::B2 => 19,
            Square::C2 => 20,
            Square::D2 => 21,
            Square::E2 => 22,
            Square::F2 => 23,
            Square::G2 => 24,
            Square::H2 => 25,
            Square::I2 => 26,
            Square::A3 => 27,
            Square::B3 => 28,
            Square::C3 => 29,
            Square::D3 => 30,
            Square::E3 => 31,
            Square::F3 => 32,
            Square::G3 => 33,
            Square::H3 => 34,
            Square::I3 => 35,
            Square::A4 => 36,
            Square::B4 => 37,
            Square::C4 => 38,
            Square::D4 => 39,
            Square::E4 => 40,
            Square::F4 => 41,
            Square::G4 => 42,
            Square::H4 => 43,
            Square::I4 => 44,
            Square::A5 => 45,
            Square::B5 => 46,
            Square::C5 => 47,
            Square::D5 => 48,
            Square::E5 => 49,
            Square::F5 => 50,
            Square::G5 => 51,
            Square::H5 => 52,
            Square::I5 => 53,
            Square::A6 => 54,
            Square::B6 => 55,
            Square::C6 => 56,
            Square::D6 => 57,
            Square::E6 => 58,
            Square::F6 => 59,
            Square::G6 => 60,
            Square::H6 => 61,
            Square::I6 => 62,
            Square::A7 => 63,
            Square::B7 => 64,
            Square::C7 => 65,
            Square::D7 => 66,
            Square::E7 => 67,
            Square::F7 => 68,
            Square::G7 => 69,
            Square::H7 => 70,
            Square::I7 => 71,
            Square::A8 => 72,
            Square::B8 => 73,
            Square::C8 => 74,
            Square::D8 => 75,
            Square::E8 => 76,
            Square::F8 => 77,
            Square::G8 => 78,
            Square::H8 => 79,
            Square::I8 => 80,
            Square::A9 => 81,
            Square::B9 => 82,
            Square::C9 => 83,
            Square::D9 => 84,
            Square::E9 => 85,
            Square::F9 => 86,
            Square::G9 => 87,
            Square::H9 => 88,
            Square::I9 => 89,
        }
    }

    /// The value whose numeric representation is `i` (meaningful for `0 <= i < COUNT`).
    pub open spec fn from_idx(i: int) -> Square {
        if i == 0 { Square::A0 } else if i == 1 { Square::B0 } else if i == 2 { Square::C0 } else if i == 3 { Square::D0 } else if i == 4 { Square::E0 } else if i == 5 { Square::F0 } else if i == 6 { Square::G0 } else if i == 7 { Square::H0 } else if i == 8 { Square::I0 } else if i == 9 { Square::A1 } else if i == 10 { Square::B1 } else if i == 11 { Square::C1 } else if i == 12 { Square::D1 } else if i == 13 { Square::E1 } else if i == 14 { Square::F1 } else if i == 15 { Square::G1 } else if i == 16 { Square::H1 } else if i == 17 { Square::I1 } else if i == 18 { Square::A2 } else if i == 19 { Square::B2 } else if i == 20 { Square::C2 } else if i == 21 { Square::D2 } else if i == 22 { Square::E2 } else if i == 23 { Square::F2 } else if i == 24 { Square::G2 } else if i == 25 { Square::H2 } else if i == 26 { Square::I2 } else if i == 27 { Square::A3 } else if i == 28 { Square::B3 } else if i == 29 { Square::C3 } else if i == 30 { Square::D3 } else if i == 31 { Square::E3 } else if i == 32 { Square::F3 } else if i == 33 { Square::G3 } else if i == 34 { Square::H3 } else if i == 35 { Square::I3 } else if i == 36 { Square::A4 } else if i == 37 { Square::B4 } else if i == 38 { Square::C4 } else if i == 39 { Square::D4 } else if i == 40 { Square::E4 } else if i == 41 { Square::F4 } else if i == 42 { Square::G4 } else if i == 43 { Square::H4 } else if i == 44 { Square::I4 } else if i == 45 { Square::A5 } else if i == 46 { Square::B5 } else if i == 47 { Square::C5 } else if i == 48 { Square::D5 } else if i == 49 { Square::E5 } else if i == 50 { Square::F5 } else if i == 51 { Square::G5 } else if i == 52 { Square::H5 } else if i == 53 { Square::I5 } else if i == 54 { Square::A6 } else if i == 55 { Square::B6 } else if i == 56 { Square::C6 } else if i == 57 { Square::D6 } else if i == 58 { Square::E6 } else if i == 59 { Square::F6 } else if i == 60 { Square::G6 } else if i == 61 { Square::H6 } else if i == 62 { Square::I6 } else if i == 63 { Square::A7 } else if i == 64 { Square::B7 } else if i == 65 { Square::C7 } else if i == 66 { Square::D7 } else if i == 67 { Square::E7 } else if i == 68 { Square::F7 } else if i == 69 { Square::G7 } else if i == 70 { Square::H7 } else if i == 71 { Square::I7 } else if i == 72 { Square::A8 } else if i == 73 { Square::B8 } else if i == 74 { Square::C8 } else if i == 75 { Square::D8 } else if i == 76 { Square::E8 } else if i == 77 { Square::F8 } else if i == 78 { Square::G8 } else if i == 79 { Square::H8 } else if i == 80 { Square::I8 } else if i == 81 { Square::A9 } else if i == 82 { Square::B9 } else if i == 83 { Square::C9 } else if i == 84 { Square::D9 } else if i == 85 { Square::E9 } else if i == 86 { Square::F9 } else if i == 87 { Square::G9 } else if i == 88 { Square::H9 } else { Square::I9 }
    }

    /// Returns the numeric representation of the value.
    pub fn index(&self) -> (r: u8)
        ensures
            r == self.idx(),
            r < 90,
    {
        match self {
            Square::A0 => 0,
            Square::B0 => 1,
            Square::C0 => 2,
            Square::D0 => 3,
            Square::E0 => 4,
            Square::F0 => 5,
            Square::G0 => 6,
            Square::H0 => 7,
            Square::I0 => 8,
            Square::A1 => 9,
            Square::B1 => 10,
            Square::C1 => 11,
            Square::D1 => 12,
            Square::E1 => 13,
            Square::F1 => 14,
            Square::G1 => 15,
            Square::H1 => 16,
            Square::I1 => 17,
            Square::A2 => 18,
            Square::B2 => 19,
            Square::C2 => 20,
            Square::D2 => 21,
            Square::E2 => 22,
            Square::F2 => 23,
            Square::G2 => 24,
            Square::H2 => 25,
            Square::I2 => 26,
            Square::A3 => 27,
            Square::B3 => 28,
            Square::C3 => 29,
            Square::D3 => 30,
            Square::E3 => 31,
            Square::F3 => 32,
            Square::G3 => 33,
            Square::H3 => 34,
            Square::I3 => 35,
            Square::A4 => 36,
            Square::B4 => 37,
            Square::C4 => 38,
            Square::D4 => 39,
            Square::E4 => 40,
            Square::F4 => 41,
            Square::G4 => 42,
            Square::H4 => 43,
            Square::I4 => 44,
            Square::A5 => 45,
            Square::B5 => 46,
            Square::C5 => 47,
            Square::D5 => 48,
            Square::E5 => 49,
            Square::F5 => 50,
            Square::G5 => 51,
            Square::H5 => 52,
            Square::I5 => 53,
            Square::A6 => 54,
            Square::B6 => 55,
            Square::C6 => 56,
            Square::D6 => 57,
            Square::E6 => 58,
            Square::F6 => 59,
            Square::G6 => 60,
            Square::H6 => 61,
            Square::I6 => 62,
            Square::A7 => 63,
            Square::B7 => 64,
            Square::C7 => 65,
            Square::D7 => 66,
            Square::E7 => 67,
            Square::F7 => 68,
            Square::G7 => 69,
            Square::H7 => 70,
            Square::I7 => 71,
            Square::A8 => 72,
            Square::B8 => 73,
            Square::C8 => 74,
            Square::D8 => 75,
            Square::E8 => 76,
            Square::F8 => 77,
            Square::G8 => 78,
            Square::H8 => 79,
            Square::I8 => 80,
            Square::A9 => 81,
            Square::B9 => 82,
            Square::C9 => 83,
            Square::D9 => 84,
            Square::E9 => 85,
            Square::F9 => 86,
            Square::G9 => 87,
            Square::H9 => 88,
            Square::I9 => 89,
        }
    }

    /// Builds a value from its numeric representation, or `None` when out of range.
    pub fn from_repr(repr: u8) -> (r: Option<Square>)
        ensures
            repr < 90 ==> r == Some(Square::from_idx(repr as int)),
            repr >= 90 ==> r is None,
    {
        match repr {
            0 => Some(Square::A0),
            1 => Some(Square::B0),
            2 => Some(Square::C0),
            3 => Some(Square::D0),
            4 => Some(Square::E0),
            5 => Some(Square::F0),
            6 => Some(Square::G0),
            7 => Some(Square::H0),
            8 => Some(Square::I0),
            9 => Some(Square::A1),
            10 => Some(Square::B1),
            11 => Some(Square::C1),
            12 => Some(Square::D1),
            13 => Some(Square::E1),
            14 => Some(Square::F1),
            15 => Some(Square::G1),
            16 => Some(Square::H1),
            17 => Some(Square::I1),
            18 => Some(Square::A2),
            19 => Some(Square::B2),
            20 => Some(Square::C2),
            21 => Some(Square::D2),
            22 => Some(Square::E2),
            23 => Some(Square::F2),
            24 => Some(Square::G2),
            25 => Some(Square::H2),
            26 => Some(Square::I2),
            27 => Some(Square::A3),
            28 => Some(Square::B3),
            29 => Some(Square::C3),
            30 => Some(Square::D3),
            31 => Some(Square::E3),
            32 => Some(Square::F3),
            33 => Some(Square::G3),
            34 => Some(Square::H3),
            35 => Some(Square::I3),
            36 => Some(Square::A4),
            37 => Some(Square::B4),
            38 => Some(Square::C4),
            39 => Some(Square::D4),
            40 => Some(Square::E4),
            41 => Some(Square::F4),
            42 => Some(Square::G4),
            43 => Some(Square::H4),
            44 => Some(Square::I4),
            45 => Some(Square::A5),
            46 => Some(Square::B5),
            47 => Some(Square::C5),
            48 => Some(Square::D5),
            49 => Some(Square::E5),
            50 => Some(Square::F5),
            51 => Some(Square::G5),
            52 => Some(Square::H5),
            53 => Some(Square::I5),
            54 => Some(Square::A6),
            55 => Some(Square::B6),
            56 => Some(Square::C6),
            57 => Some(Square::D6),
            58 => Some(Square::E6),
            59 => Some(Square::F6),
            60 => Some(Square::G6),
            61 => Some(Square::H6),
            62 => Some(Square::I6),
            63 => Some(Square::A7),
            64 => Some(Square::B7),
            65 => Some(Square::C7),
            66 => Some(Square::D7),
            67 => Some(Square::E7),
            68 => Some(Square::F7),
            69 => Some(Square::G7),
            70 => Some(Square::H7),
            71 => Some(Square::I7),
            72 => Some(Square::A8),
            73 => Some(Square::B8),
            74 => Some(Square::C8),
            75 => Some(Square::D8),
            76 => Some(Square::E8),
            77 => Some(Square::F8),
            78 => Some(Square::G8),
            79 => Some(Square::H8),
            80 => Some(Square::I8),
            81 => Some(Square::A9),
            82 => Some(Square::B9),
            83 => Some(Square::C9),
            84 => Some(Square::D9),
            85 => Some(Square::E9),
            86 => Some(Square::F9),
            87 => Some(Square::G9),
            88 => Some(Square::H9),
            89 => Some(Square::I9),
            _ => None,
        }
    }
}

/// Each value is recovered from its numeric representation, and the
/// representation stays in range.
pub broadcast proof fn lemma_square_idx(x: Square)
    ensures
        0 <= #[trigger] x.idx() < 90,
        Square::from_idx(x.idx()) == x,
{
}

/// The representation of the value built from `i` is `i`.
pub broadcast proof fn lemma_square_from_idx(i: int)
    requires
        0 <= i < 90,
    ensures
        #[trigger] Square::from_idx(i).idx() == i,
{
}
impl Square {
    /// File index (0..9) of the square with numeric representation `i`.
    pub open spec fn file_of(i: int) -> int {
        i % 9
    }

    /// Rank index (0..10) of the square with numeric representation `i`.
    pub open spec fn rank_of(i: int) -> int {
        i / 9
    }

    /// Constructs a `Square` from its `File` and `Rank`: `rank * 9 + file`.
    pub fn from_file_rank(file: File, rank: Rank) -> (r: Square)
        ensures
            r.idx() == rank.idx() * 9 + file.idx(),
    {
        let f = file.index();
        let rk = rank.index();
        let i = rk * 9 + f;
        let r = Square::from_repr(i);
        proof {
            lemma_square_from_idx(i as int);
        }
        r.unwrap()
    }

    /// Extracts the file (vertical column) of the square.
    pub fn file(&self) -> (r: File)
        ensures
            r.idx() == Square::file_of(self.idx()),
    {
        let i = self.index();
        let r = File::from_repr(i % 9);
        proof {
            lemma_file_from_idx((i % 9) as int);
        }
        r.unwrap()
    }

    /// Extracts the rank (horizontal row) of the square.
    pub fn rank(&self) -> (r: Rank)
        ensures
            r.idx() == Square::rank_of(self.idx()),
    {
        let i = self.index();
        let r = Rank::from_repr(i / 9);
        proof {
            lemma_rank_from_idx((i / 9) as int);
        }
        r.unwrap()
    }
}

/// The types of Xiangqi pieces.
#[derive(Clone, Copy, PartialEq, Eq, Structural, Debug)]
pub enum PieceType {
    Rook,
    Advisor,
    Cannon,
    Pawn,
    Knight,
    Bishop,
    King,
}

impl PieceType {
    /// Number of piece types.
    pub const COUNT: usize = 7;

    /// The numeric representation of the piece type.
    pub open spec fn idx(self) -> int {
        match self {
            PieceType::Rook => 0,
            PieceType::Advisor => 1,
            PieceType::Cannon => 2,
            PieceType::Pawn => 3,
            PieceType::Knight => 4,
            PieceType::Bishop => 5,
            PieceType::King => 6,
        }
    }

    /// The piece type whose numeric representation is `i`.
    pub open spec fn from_idx(i: int) -> PieceType {
        if i == 0 {
            PieceType::Rook
        } else if i == 1 {
            PieceType::Advisor
        } else if i == 2 {
            PieceType::Cannon
        } else if i == 3 {
            PieceType::Pawn
        } else if i == 4 {
            PieceType::Knight
        } else if i == 5 {
            PieceType::Bishop
        } else {
            PieceType::King
        }
    }

    /// The piece of this type that belongs to `side`.
    pub open spec fn piece_of(self, side: Side) -> Piece {
        Piece::from_idx(self.idx() + 8 * side.idx())
    }

    /// Returns the numeric representation of the piece type.
    pub fn index(&self) -> (r: usize)
        ensures
            r == self.idx(),
            r < 7,
    {
        match self {
            PieceType::Rook => 0,
            PieceType::Advisor => 1,
            PieceType::Cannon => 2,
            PieceType::Pawn => 3,
            PieceType::Knight => 4,
            PieceType::Bishop => 5,
            PieceType::King => 6,
        }
    }

    /// Builds a piece type from its numeric representation.
    pub fn from_repr(repr: u8) -> (r: Option<PieceType>)
        ensures
            repr < 7 ==> r == Some(PieceType::from_idx(repr as int)),
            repr >= 7 ==> r is None,
    {
        match repr {
            0 => Some(PieceType::Rook),
            1 => Some(PieceType::Advisor),
            2 => Some(PieceType::Cannon),
            3 => Some(PieceType::Pawn),
            4 => Some(PieceType::Knight),
            5 => Some(PieceType::Bishop),
            6 => Some(PieceType::King),
            _ => None,
        }
    }

    /// The piece of this type that belongs to `side`.
    pub fn to_piece(&self, side: Side) -> (r: Piece)
        ensures
            r == self.piece_of(side),
            r.piece_type_spec() == *self,
            r.color_spec() == side,
    {
        let i = self.index() as u8 + 8 * side.index() as u8;
        let r = Piece::from_repr(i);
        r.unwrap()
    }
}

/// The Xiangqi pieces. Red pieces are represented by 0..=6 and Black pieces by 8..=14,
/// so that the side is bit 3 and the piece type the low three bits.
#[derive(Clone, Copy, PartialEq, Eq, Structural, Debug)]
pub enum Piece {
    RedRook,
    RedAdvisor,
    RedCannon,
    RedPawn,
    RedKnight,
    RedBishop,
    RedKing,
    BlackRook,
    BlackAdvisor,
    BlackCannon,
    BlackPawn,
    BlackKnight,
    BlackBishop,
    BlackKing,
}

impl Piece {
    /// Size of tables indexed by the numeric representation of a piece.
    pub const COUNT: usize = 15;

    /// The numeric representation of the piece.
    pub open spec fn idx(self) -> int {
        match self {
            Piece::RedRook => 0,
            Piece::RedAdvisor => 1,
            Piece::RedCannon => 2,
            Piece::RedPawn => 3,
            Piece::RedKnight => 4,
            Piece::RedBishop => 5,
            Piece::RedKing => 6,
            Piece::BlackRook => 8,
            Piece::BlackAdvisor => 9,
            Piece::BlackCannon => 10,
            Piece::BlackPawn => 11,
            Piece::BlackKnight => 12,
            Piece::BlackBishop => 13,
            Piece::BlackKing => 14,
        }
    }

    /// The piece whose numeric representation is `i` (meaningful for `0 <= i < 15, i != 7`).
    pub open spec fn from_idx(i: int) -> Piece {
        if i == 0 {
            Piece::RedRook
        } else if i == 1 {
            Piece::RedAdvisor
        } else if i == 2 {
            Piece::RedCannon
        } else if i == 3 {
            Piece::RedPawn
        } else if i == 4 {
            Piece::RedKnight
        } else if i == 5 {
            Piece::RedBishop
        } else if i == 6 {
            Piece::RedKing
        } else if i == 8 {
            Piece::BlackRook
        } else if i == 9 {
            Piece::BlackAdvisor
        } else if i == 10 {
            Piece::BlackCannon
        } else if i == 11 {
            Piece::BlackPawn
        } else if i == 12 {
            Piece::BlackKnight
        } else if i == 13 {
            Piece::BlackBishop
        } else {
            Piece::BlackKing
        }
    }

    /// Whether `i` is the representation of some piece.
    pub open spec fn valid_idx(i: int) -> bool {
        0 <= i < 15 && i != 7
    }

    /// The side the piece belongs to.
    pub open spec fn color_spec(self) -> Side {
        Side::from_idx(self.idx() / 8)
    }

    /// The type of the piece.
    pub open spec fn piece_type_spec(self) -> PieceType {
        PieceType::from_idx(self.idx() % 8)
    }

    /// Returns the numeric representation of the piece.
    pub fn index(&self) -> (r: usize)
        ensures
            r == self.idx(),
            Piece::valid_idx(r as int),
    {
        match self {
            Piece::RedRook => 0,
            Piece::RedAdvisor => 1,
            Piece::RedCannon => 2,
            Piece::RedPawn => 3,
            Piece::RedKnight => 4,
            Piece::RedBishop => 5,
            Piece::RedKing => 6,
            Piece::BlackRook => 8,
            Piece::BlackAdvisor => 9,
            Piece::BlackCannon => 10,
            Piece::BlackPawn => 11,
            Piece::BlackKnight => 12,
            Piece::BlackBishop => 13,
            Piece::BlackKing => 14,
        }
    }

    /// Builds a piece from its numeric representation, or `None` for 7 and values above 14.
    pub fn from_repr(repr: u8) -> (r: Option<Piece>)
        ensures
            Piece::valid_idx(repr as int) ==> r == Some(Piece::from_idx(repr as int)),
            !Piece::valid_idx(repr as int) ==> r is None,
    {
        match repr {
            0 => Some(Piece::RedRook),
            1 => Some(Piece::RedAdvisor),
            2 => Some(Piece::RedCannon),
            3 => Some(Piece::RedPawn),
            4 => Some(Piece::RedKnight),
            5 => Some(Piece::RedBishop),
            6 => Some(Piece::RedKing),
            8 => Some(Piece::BlackRook),
            9 => Some(Piece::BlackAdvisor),
            10 => Some(Piece::BlackCannon),
            11 => Some(Piece::BlackPawn),
            12 => Some(Piece::BlackKnight),
            13 => Some(Piece::BlackBishop),
            14 => Some(Piece::BlackKing),
            _ => None,
        }
    }

    /// All pieces, in increasing order of representation.
    pub fn all() -> (r: Vec<Piece>)
        ensures
            r@.len() == 14,
            forall|i: int| 0 <= i < 7 ==> #[trigger] r@[i] == Piece::from_idx(i),
            forall|i: int| 7 <= i < 14 ==> #[trigger] r@[i] == Piece::from_idx(i + 1),
    {
        let mut v: Vec<Piece> = Vec::new();
        let mut i: u8 = 0;
        while i < 15
            invariant
                i <= 15,
                v@.len() == (if i <= 7 { i as int } else { i - 1 }),
                forall|j: int| 0 <= j < 7 && j < v@.len() ==> #[trigger] v@[j] == Piece::from_idx(j),
                forall|j: int| 7 <= j < v@.len() ==> #[trigger] v@[j] == Piece::from_idx(j + 1),
            decreases 15 - i,
        {
            if let Some(p) = Piece::from_repr(i) {
                v.push(p);
            }
            i = i + 1;
        }
        v
    }

    /// The side the piece belongs to.
    pub fn color(&self) -> (r: Side)
        ensures
            r == self.color_spec(),
    {
        if self.index() >= 8 {
            Side::Black
        } else {
            Side::Red
        }
    }

    /// The type of the piece.
    pub fn piece_type(&self) -> (r: PieceType)
        ensures
            r == self.piece_type_spec(),
    {
        let r = PieceType::from_repr((self.index() % 8) as u8);
        r.unwrap()
    }
}

/// Each piece is the piece of its own type and side.
pub broadcast proof fn lemma_piece_parts(p: Piece)
    ensures
        #[trigger] p.piece_type_spec().piece_of(p.color_spec()) == p,
        Piece::valid_idx(p.idx()),
{
}

/// Types of moves that can be requested from move generation.
#[derive(Clone, Copy, PartialEq, Eq, Structural, Debug)]
pub enum MoveGenType {
    Captures,
    Quiets,
    Evasions,
    PseudoLegal,
    Legal,
}


/// A move packed in 16 bits: bits 0-6 hold the destination square, bits 7-13 the
/// origin square and bits 14-15 optional flags. The all-zero value is the empty move.
#[derive(Clone, Copy, PartialEq, Eq, Structural, Debug)]
pub struct Move(pub u16);

/// Upper-case file letters.
pub open spec fn file_letter(f: int) -> char {
    (65 + f) as char
}

/// Lower-case file letters.
pub open spec fn file_letter_lower(f: int) -> char {
    (97 + f) as char
}

/// Rank digits.
pub open spec fn rank_digit(r: int) -> char {
    (48 + r) as char
}

/// The name of square `s` in upper case, such as `A0` or `I9`.
pub open spec fn square_name(s: int) -> Seq<char> {
    seq![file_letter(Square::file_of(s)), rank_digit(Square::rank_of(s))]
}

/// The coordinates of square `s` in lower case, as in UCI move strings.
pub open spec fn square_coords(s: int) -> Seq<char> {
    seq![file_letter_lower(Square::file_of(s)), rank_digit(Square::rank_of(s))]
}

/// The one-character string holding the character with code `c`.
pub(crate) fn ascii_str(c: u8) -> (r: String)
    requires
        48 <= c <= 57 || 65 <= c <= 73 || 97 <= c <= 105,
    ensures
        r@ == seq![c as char],
{
    let s = match c {
        48 => "0", 49 => "1", 50 => "2", 51 => "3", 52 => "4", 53 => "5", 54 => "6", 55 => "7",
        56 => "8", 57 => "9", 65 => "A", 66 => "B", 67 => "C", 68 => "D", 69 => "E", 70 => "F",
        71 => "G", 72 => "H", 73 => "I", 97 => "a", 98 => "b", 99 => "c", 100 => "d", 101 => "e",
        102 => "f", 103 => "g", 104 => "h", 105 => "i", _ => "?",
    };
    proof {
        reveal_strlit("0"); reveal_strlit("1"); reveal_strlit("2"); reveal_strlit("3");
        reveal_strlit("4"); reveal_strlit("5"); reveal_strlit("6"); reveal_strlit("7");
        reveal_strlit("8"); reveal_strlit("9"); reveal_strlit("A"); reveal_strlit("B");
        reveal_strlit("C"); reveal_strlit("D"); reveal_strlit("E"); reveal_strlit("F");
        reveal_strlit("G"); reveal_strlit("H"); reveal_strlit("I"); reveal_strlit("a");
        reveal_strlit("b"); reveal_strlit("c"); reveal_strlit("d"); reveal_strlit("e");
        reveal_strlit("f"); reveal_strlit("g"); reveal_strlit("h"); reveal_strlit("i");
        reveal_strlit("?");
    }
    String::from_str(s)
}

/// Appends the two-character name of `sq` to `out` (upper-case file letter when
/// `upper`, lower-case otherwise).
fn push_square(out: &mut String, sq: Square, upper: bool)
    ensures
        final(out)@ == old(out)@ + (if upper {
            square_name(sq.idx())
        } else {
            square_coords(sq.idx())
        }),
{
    let i = sq.index();
    let base: u8 = if upper {
        65
    } else {
        97
    };
    let f = ascii_str(base + i % 9);
    let r = ascii_str(48 + i / 9);
    out.append(f.as_str());
    out.append(r.as_str());
    proof {
        assert(out@ =~= old(out)@ + (if upper {
            square_name(sq.idx())
        } else {
            square_coords(sq.idx())
        }));
    }
}

impl Move {
    /// The destination square index (bits 0-6).
    pub open spec fn to_idx(self) -> int {
        (self.0 % 128) as int
    }

    /// The origin square index (bits 7-13).
    pub open spec fn from_idx(self) -> int {
        ((self.0 / 128) % 128) as int
    }

    /// The flags (bits 14-15).
    pub open spec fn flags_spec(self) -> int {
        (self.0 / 16384) as int
    }

    /// Whether both squares of the move are board squares.
    pub open spec fn valid(self) -> bool {
        self.to_idx() < 90 && self.from_idx() < 90
    }

    /// Constructs a move from an origin and a destination square, which differ.
    pub fn new(from: Square, to: Square) -> (r: Move)
        requires
            from.idx() != to.idx(),
        ensures
            r.from_idx() == from.idx(),
            r.to_idx() == to.idx(),
            r.flags_spec() == 0,
            r.valid(),
            r.0 == to.idx() + 128 * from.idx(),
    {
        let t = to.index() as u16;
        let f = from.index() as u16;
        assert((t | (f << 7u16)) == t + 128 * f) by (bit_vector)
            requires
                t < 90,
                f < 90,
        ;
        Move(t | (f << 7))
    }

    /// Constructs a move with flags (the low two bits of `flags` are kept).
    #[verifier::spinoff_prover]
    pub fn new_with_flags(from: Square, to: Square, flags: u16) -> (r: Move)
        ensures
            r.from_idx() == from.idx(),
            r.to_idx() == to.idx(),
            r.flags_spec() == flags % 4,
            r.valid(),
    {
        let t = to.index() as u16;
        let f = from.index() as u16;
        assert((t | (f << 7u16) | ((flags & 3u16) << 14u16)) == t + 128 * f + 16384 * (flags % 4))
            by (bit_vector)
            requires
                t < 90,
                f < 90,
        ;
        Move(t | (f << 7) | ((flags & 3) << 14))
    }

    /// The origin square.
    pub fn square_from(&self) -> (r: Square)
        requires
            self.valid(),
        ensures
            r.idx() == self.from_idx(),
    {
        let x = self.0;
        assert((x >> 7u16) & 0x7Fu16 == (x / 128) % 128) by (bit_vector);
        let r = Square::from_repr(((self.0 >> 7) & 0x7F) as u8);
        proof {
            lemma_square_from_idx(self.from_idx());
        }
        r.unwrap()
    }

    /// The destination square.
    pub fn square_to(&self) -> (r: Square)
        requires
            self.valid(),
        ensures
            r.idx() == self.to_idx(),
    {
        let x = self.0;
        assert(x & 0x7Fu16 == x % 128) by (bit_vector);
        let r = Square::from_repr((self.0 & 0x7F) as u8);
        proof {
            lemma_square_from_idx(self.to_idx());
        }
        r.unwrap()
    }

    /// The origin square (same as [`Move::square_from`]).
    pub fn from(&self) -> (r: Square)
        requires
            self.valid(),
        ensures
            r.idx() == self.from_idx(),
    {
        self.square_from()
    }

    /// The destination square (same as [`Move::square_to`]).
    pub fn to(&self) -> (r: Square)
        requires
            self.valid(),
        ensures
            r.idx() == self.to_idx(),
    {
        self.square_to()
    }

    /// The move flags.
    pub fn flags(&self) -> (r: u16)
        ensures
            r == self.flags_spec(),
    {
        let x = self.0;
        assert(x >> 14u16 == x / 16384) by (bit_vector);
        self.0 >> 14
    }

    /// The empty move.
    pub fn none() -> (r: Move)
        ensures
            r.0 == 0,
    {
        Move(0)
    }

    /// Whether the move is the empty move.
    pub fn is_none(&self) -> (r: bool)
        ensures
            r == (self.0 == 0),
    {
        self.0 == 0
    }

    /// Whether both squares of the move are board squares.
    pub fn is_valid(&self) -> (r: bool)
        ensures
            r == self.valid(),
    {
        self.0 % 128 < 90 && (self.0 / 128) % 128 < 90
    }

    /// The move in UCI notation: origin then destination coordinates, such as `a0i9`.
    pub fn to_uci_string(&self) -> (r: String)
        requires
            self.valid(),
        ensures
            r@ == square_coords(self.from_idx()) + square_coords(self.to_idx()),
    {
        let mut s = String::new();
        push_square(&mut s, self.square_from(), false);
        push_square(&mut s, self.square_to(), false);
        s
    }

    /// A readable description such as `A0 to I9`.
    pub fn to_string(&self) -> (r: String)
        requires
            self.valid(),
        ensures
            r@ == square_name(self.from_idx()) + " to "@ + square_name(self.to_idx()),
    {
        let mut s = String::new();
        push_square(&mut s, self.square_from(), true);
        s.append(" to ");
        push_square(&mut s, self.square_to(), true);
        s
    }
}

/// The maximum number of moves kept in a move list.
pub const MAX_MOVES: usize = 128;

/// The two sides under their chess names: White plays Red's part, Black Black's.
#[derive(Clone, Copy, PartialEq, Eq, Structural, Debug)]
pub enum Color {
    White,
    Black,
}

impl Color {
    /// The other color.
    pub fn opposite(&self) -> (r: Color)
        ensures
            r == (if *self == Color::White {
                Color::Black
            } else {
                Color::White
            }),
    {
        match self {
            Color::White => Color::Black,
            Color::Black => Color::White,
        }
    }
}

/// The number of counters of a [`BloomFilter`].
pub const BLOOM_FILTER_SIZE: usize = 16384;

/// Counters indexed by Zobrist key modulo [`BLOOM_FILTER_SIZE`].
pub struct BloomFilter {
    table: Vec<u8>,
}

impl BloomFilter {
    /// The counters, by index.
    pub closed spec fn counters(&self) -> Seq<u8> {
        self.table@
    }

    /// The index of key `key`.
    pub open spec fn index_of(key: u64) -> int {
        (key as usize) as int % BLOOM_FILTER_SIZE as int
    }

    /// All counters zero.
    pub fn new() -> (r: BloomFilter)
        ensures
            r.counters().len() == BLOOM_FILTER_SIZE,
            forall|i: int| 0 <= i < BLOOM_FILTER_SIZE ==> #[trigger] r.counters()[i] == 0,
    {
        let mut table: Vec<u8> = Vec::new();
        let mut i: usize = 0;
        while i < BLOOM_FILTER_SIZE
            invariant
                i <= BLOOM_FILTER_SIZE,
                table@.len() == i,
                forall|j: int| 0 <= j < i ==> #[trigger] table@[j] == 0,
            decreases BLOOM_FILTER_SIZE - i,
        {
            table.push(0);
            i = i + 1;
        }
        BloomFilter { table }
    }

    /// The counter of key `key`.
    pub fn get(&self, key: u64) -> (r: u8)
        requires
            self.counters().len() == BLOOM_FILTER_SIZE,
        ensures
            r == self.counters()[BloomFilter::index_of(key)],
    {
        self.table[(key as usize) % BLOOM_FILTER_SIZE]
    }

    /// Sets the counter of key `key` to `value`.
    pub fn set(&mut self, key: u64, value: u8)
        requires
            old(self).counters().len() == BLOOM_FILTER_SIZE,
        ensures
            final(self).counters() == old(self).counters().update(BloomFilter::index_of(key), value),
    {
        self.table.set((key as usize) % BLOOM_FILTER_SIZE, value);
    }
}

} // verus!
