//! The squares of a Shogi board.
use vstd::prelude::*;
use crate::bitboard::{BitBoard, bit, lemma_bit_single, BOARD_MASK};
use crate::color::Color;
use vstd::string::StringSliceAdditionalSpecFns;
use crate::file::{File, lemma_file_idx, lemma_file_from_idx};
use crate::rank::{Rank, lemma_rank_idx, lemma_rank_from_idx};

verus! {

broadcast use crate::bits::group_bit_lemmas;

/// A square on a Shogi board, in file-major order: A1, B1, ..., I1, A2, ..., I9.
#[derive(Debug, Clone, Copy, PartialEq, Eq, Hash, PartialOrd, Ord, Structural)]
pub enum Square {
    A1,
    B1,
    C1,
    D1,
    E1,
    F1,
    G1,
    H1,
    I1,
    A2,
    B2,
    C2,
    D2,
    E2,
    F2,
    G2,
    H2,
    I2,
    A3,
    B3,
    C3,
    D3,
    E3,
    F3,
    G3,
    H3,
    I3,
    A4,
    B4,
    C4,
    D4,
    E4,
    F4,
    G4,
    H4,
    I4,
    A5,
    B5,
    C5,
    D5,
    E5,
    F5,
    G5,
    H5,
    I5,
    A6,
    B6,
    C6,
    D6,
    E6,
    F6,
    G6,
    H6,
    I6,
    A7,
    B7,
    C7,
    D7,
    E7,
    F7,
    G7,
    H7,
    I7,
    A8,
    B8,
    C8,
    D8,
    E8,
    F8,
    G8,
    H8,
    I8,
    A9,
    B9,
    C9,
    D9,
    E9,
    F9,
    G9,
    H9,
    I9,
}

impl Square {
    /// The number of values.
    pub const NUM: usize = 81;

    /// All values, in index order.
    pub const ALL: [Square; 81] = [
        Square::A1, Square::B1, Square::C1, Square::D1, Square::E1, Square::F1, Square::G1,
        Square::H1, Square::I1, Square::A2, Square::B2, Square::C2, Square::D2, Square::E2,
        Square::F2, Square::G2, Square::H2, Square::I2, Square::A3, Square::B3, Square::C3,
        Square::D3, Square::E3, Square::F3, Square::G3, Square::H3, Square::I3, Square::A4,
        Square::B4, Square::C4, Square::D4, Square::E4, Square::F4, Square::G4, Square::H4,
        Square::I4, Square::A5, Square::B5, Square::C5, Square::D5, Square::E5, Square::F5,
        Square::G5, Square::H5, Square::I5, Square::A6, Square::B6, Square::C6, Square::D6,
        Square::E6, Square::F6, Square::G6, Square::H6, Square::I6, Square::A7, Square::B7,
        Square::C7, Square::D7, Square::E7, Square::F7, Square::G7, Square::H7, Square::I7,
        Square::A8, Square::B8, Square::C8, Square::D8, Square::E8, Square::F8, Square::G8,
        Square::H8, Square::I8, Square::A9, Square::B9, Square::C9, Square::D9, Square::E9,
        Square::F9, Square::G9, Square::H9, Square::I9,
    ];

    /// The position of this value in [`Self::ALL`].
    pub closed spec fn idx(self) -> int {
        match self {
            Square::A1 => 0,
            Square::B1 => 1,
            Square::C1 => 2,
            Square::D1 => 3,
            Square::E1 => 4,
            Square::F1 => 5,
            Square::G1 => 6,
            Square::H1 => 7,
            Square::I1 => 8,
            Square::A2 => 9,
            Square::B2 => 10,
            Square::C2 => 11,
            Square::D2 => 12,
            Square::E2 => 13,
            Square::F2 => 14,
            Square::G2 => 15,
            Square::H2 => 16,
            Square::I2 => 17,
            Square::A3 => 18,
            Square::B3 => 19,
            Square::C3 => 20,
            Square::D3 => 21,
            Square::E3 => 22,
            Square::F3 => 23,
            Square::G3 => 24,
            Square::H3 => 25,
            Square::I3 => 26,
            Square::A4 => 27,
            Square::B4 => 28,
            Square::C4 => 29,
            Square::D4 => 30,
            Square::E4 => 31,
            Square::F4 => 32,
            Square::G4 => 33,
            Square::H4 => 34,
            Square::I4 => 35,
            Square::A5 => 36,
            Square::B5 => 37,
            Square::C5 => 38,
            Square::D5 => 39,
            Square::E5 => 40,
            Square::F5 => 41,
            Square::G5 => 42,
            Square::H5 => 43,
            Square::I5 => 44,
            Square::A6 => 45,
            Square::B6 => 46,
            Square::C6 => 47,
            Square::D6 => 48,
            Square::E6 => 49,
            Square::F6 => 50,
            Square::G6 => 51,
            Square::H6 => 52,
            Square::I6 => 53,
            Square::A7 => 54,
            Square::B7 => 55,
            Square::C7 => 56,
            Square::D7 => 57,
            Square::E7 => 58,
            Square::F7 => 59,
            Square::G7 => 60,
            Square::H7 => 61,
            Square::I7 => 62,
            Square::A8 => 63,
            Square::B8 => 64,
            Square::C8 => 65,
            Square::D8 => 66,
            Square::E8 => 67,
            Square::F8 => 68,
            Square::G8 => 69,
            Square::H8 => 70,
            Square::I8 => 71,
            Square::A9 => 72,
            Square::B9 => 73,
            Square::C9 => 74,
            Square::D9 => 75,
            Square::E9 => 76,
            Square::F9 => 77,
            Square::G9 => 78,
            Square::H9 => 79,
            Square::I9 => 80,
        }
    }

    /// The value at position `i` of [`Self::ALL`].
    pub closed spec fn from_idx(i: int) -> Self {
        if i == 0 {
            Square::A1
        } else if i == 1 {
            Square::B1
        } else if i == 2 {
            Square::C1
        } else if i == 3 {
            Square::D1
        } else if i == 4 {
            Square::E1
        } else if i == 5 {
            Square::F1
        } else if i == 6 {
            Square::G1
        } else if i == 7 {
            Square::H1
        } else if i == 8 {
            Square::I1
        } else if i == 9 {
            Square::A2
        } else if i == 10 {
            Square::B2
        } else if i == 11 {
            Square::C2
        } else if i == 12 {
            Square::D2
        } else if i == 13 {
            Square::E2
        } else if i == 14 {
            Square::F2
        } else if i == 15 {
            Square::G2
        } else if i == 16 {
            Square::H2
        } else if i == 17 {
            Square::I2
        } else if i == 18 {
            Square::A3
        } else if i == 19 {
            Square::B3
        } else if i == 20 {
            Square::C3
        } else if i == 21 {
            Square::D3
        } else if i == 22 {
            Square::E3
        } else if i == 23 {
            Square::F3
        } else if i == 24 {
            Square::G3
        } else if i == 25 {
            Square::H3
        } else if i == 26 {
            Square::I3
        } else if i == 27 {
            Square::A4
        } else if i == 28 {
            Square::B4
        } else if i == 29 {
            Square::C4
        } else if i == 30 {
            Square::D4
        } else if i == 31 {
            Square::E4
        } else if i == 32 {
            Square::F4
        } else if i == 33 {
            Square::G4
        } else if i == 34 {
            Square::H4
        } else if i == 35 {
            Square::I4
        } else if i == 36 {
            Square::A5
        } else if i == 37 {
            Square::B5
        } else if i == 38 {
            Square::C5
        } else if i == 39 {
            Square::D5
        } else if i == 40 {
            Square::E5
        } else if i == 41 {
            Square::F5
        } else if i == 42 {
            Square::G5
        } else if i == 43 {
            Square::H5
        } else if i == 44 {
            Square::I5
        } else if i == 45 {
            Square::A6
        } else if i == 46 {
            Square::B6
        } else if i == 47 {
            Square::C6
        } else if i == 48 {
            Square::D6
        } else if i == 49 {
            Square::E6
        } else if i == 50 {
            Square::F6
        } else if i == 51 {
            Square::G6
        } else if i == 52 {
            Square::H6
        } else if i == 53 {
            Square::I6
        } else if i == 54 {
            Square::A7
        } else if i == 55 {
            Square::B7
        } else if i == 56 {
            Square::C7
        } else if i == 57 {
            Square::D7
        } else if i == 58 {
            Square::E7
        } else if i == 59 {
            Square::F7
        } else if i == 60 {
            Square::G7
        } else if i == 61 {
            Square::H7
        } else if i == 62 {
            Square::I7
        } else if i == 63 {
            Square::A8
        } else if i == 64 {
            Square::B8
        } else if i == 65 {
            Square::C8
        } else if i == 66 {
            Square::D8
        } else if i == 67 {
            Square::E8
        } else if i == 68 {
            Square::F8
        } else if i == 69 {
            Square::G8
        } else if i == 70 {
            Square::H8
        } else if i == 71 {
            Square::I8
        } else if i == 72 {
            Square::A9
        } else if i == 73 {
            Square::B9
        } else if i == 74 {
            Square::C9
        } else if i == 75 {
            Square::D9
        } else if i == 76 {
            Square::E9
        } else if i == 77 {
            Square::F9
        } else if i == 78 {
            Square::G9
        } else if i == 79 {
            Square::H9
        } else {
            Square::I9
        }
    }

    /// The position of this value in [`Self::ALL`].
    pub fn index(self) -> (r: usize)
        ensures
            r == self.idx(),
    {
        match self {
            Square::A1 => 0,
            Square::B1 => 1,
            Square::C1 => 2,
            Square::D1 => 3,
            Square::E1 => 4,
            Square::F1 => 5,
            Square::G1 => 6,
            Square::H1 => 7,
            Square::I1 => 8,
            Square::A2 => 9,
            Square::B2 => 10,
            Square::C2 => 11,
            Square::D2 => 12,
            Square::E2 => 13,
            Square::F2 => 14,
            Square::G2 => 15,
            Square::H2 => 16,
            Square::I2 => 17,
            Square::A3 => 18,
            Square::B3 => 19,
            Square::C3 => 20,
            Square::D3 => 21,
            Square::E3 => 22,
            Square::F3 => 23,
            Square::G3 => 24,
            Square::H3 => 25,
            Square::I3 => 26,
            Square::A4 => 27,
            Square::B4 => 28,
            Square::C4 => 29,
            Square::D4 => 30,
            Square::E4 => 31,
            Square::F4 => 32,
            Square::G4 => 33,
            Square::H4 => 34,
            Square::I4 => 35,
            Square::A5 => 36,
            Square::B5 => 37,
            Square::C5 => 38,
            Square::D5 => 39,
            Square::E5 => 40,
            Square::F5 => 41,
            Square::G5 => 42,
            Square::H5 => 43,
            Square::I5 => 44,
            Square::A6 => 45,
            Square::B6 => 46,
            Square::C6 => 47,
            Square::D6 => 48,
            Square::E6 => 49,
            Square::F6 => 50,
            Square::G6 => 51,
            Square::H6 => 52,
            Square::I6 => 53,
            Square::A7 => 54,
            Square::B7 => 55,
            Square::C7 => 56,
            Square::D7 => 57,
            Square::E7 => 58,
            Square::F7 => 59,
            Square::G7 => 60,
            Square::H7 => 61,
            Square::I7 => 62,
            Square::A8 => 63,
            Square::B8 => 64,
            Square::C8 => 65,
            Square::D8 => 66,
            Square::E8 => 67,
            Square::F8 => 68,
            Square::G8 => 69,
            Square::H8 => 70,
            Square::I8 => 71,
            Square::A9 => 72,
            Square::B9 => 73,
            Square::C9 => 74,
            Square::D9 => 75,
            Square::E9 => 76,
            Square::F9 => 77,
            Square::G9 => 78,
            Square::H9 => 79,
            Square::I9 => 80,
        }
    }

    /// The value at position `i` of [`Self::ALL`].
    pub fn index_const(i: usize) -> (r: Self)
        requires
            i < 81,
        ensures
            r.idx() == i,
            r == Self::from_idx(i as int),
    {
        match i {
            0 => Square::A1,
            1 => Square::B1,
            2 => Square::C1,
            3 => Square::D1,
            4 => Square::E1,
            5 => Square::F1,
            6 => Square::G1,
            7 => Square::H1,
            8 => Square::I1,
            9 => Square::A2,
            10 => Square::B2,
            11 => Square::C2,
            12 => Square::D2,
            13 => Square::E2,
            14 => Square::F2,
            15 => Square::G2,
            16 => Square::H2,
            17 => Square::I2,
            18 => Square::A3,
            19 => Square::B3,
            20 => Square::C3,
            21 => Square::D3,
            22 => Square::E3,
            23 => Square::F3,
            24 => Square::G3,
            25 => Square::H3,
            26 => Square::I3,
            27 => Square::A4,
            28 => Square::B4,
            29 => Square::C4,
            30 => Square::D4,
            31 => Square::E4,
            32 => Square::F4,
            33 => Square::G4,
            34 => Square::H4,
            35 => Square::I4,
            36 => Square::A5,
            37 => Square::B5,
            38 => Square::C5,
            39 => Square::D5,
            40 => Square::E5,
            41 => Square::F5,
            42 => Square::G5,
            43 => Square::H5,
            44 => Square::I5,
            45 => Square::A6,
            46 => Square::B6,
            47 => Square::C6,
            48 => Square::D6,
            49 => Square::E6,
            50 => Square::F6,
            51 => Square::G6,
            52 => Square::H6,
            53 => Square::I6,
            54 => Square::A7,
            55 => Square::B7,
            56 => Square::C7,
            57 => Square::D7,
            58 => Square::E7,
            59 => Square::F7,
            60 => Square::G7,
            61 => Square::H7,
            62 => Square::I7,
            63 => Square::A8,
            64 => Square::B8,
            65 => Square::C8,
            66 => Square::D8,
            67 => Square::E8,
            68 => Square::F8,
            69 => Square::G8,
            70 => Square::H8,
            71 => Square::I8,
            72 => Square::A9,
            73 => Square::B9,
            74 => Square::C9,
            75 => Square::D9,
            76 => Square::E9,
            77 => Square::F9,
            78 => Square::G9,
            79 => Square::H9,
            _ => Square::I9,
        }
    }

    /// The value at position `i` of [`Self::ALL`], if there is one.
    pub fn try_index(i: usize) -> (r: Option<Self>)
        ensures
            i < 81 ==> r == Some(Self::from_idx(i as int)),
            i >= 81 ==> r is None,
    {
        if i < 81 {
            Some(Self::index_const(i))
        } else {
            None
        }
    }
}

/// Every value of [`Square`] has a position below [`Square::NUM`], and positions identify values.
pub broadcast proof fn lemma_square_idx(x: Square)
    ensures
        0 <= #[trigger] x.idx() < 81,
        Square::from_idx(x.idx()) == x,
{
}

/// Positions below [`Square::NUM`] name exactly one value.
pub broadcast proof fn lemma_square_from_idx(i: int)
    requires
        0 <= i < 81,
    ensures
        #[trigger] Square::from_idx(i).idx() == i,
{
}
/// The square index of the square on file `f` and rank `r` (both counted from 0).
pub open spec fn sq_index(f: int, r: int) -> int {
    9 * f + r
}

/// File `f` and rank `r` lie on the board.
pub open spec fn on_board(f: int, r: int) -> bool {
    0 <= f < 9 && 0 <= r < 9
}

/// The square named by two bytes: a file digit `1`-`9` and a rank letter `a`-`i`.
pub open spec fn square_code(b: Seq<u8>) -> Option<Square> {
    if b.len() == 2 && 49 <= b[0] <= 57 && 97 <= b[1] <= 105 {
        Some(Square::from_idx(sq_index(b[0] - 49, b[1] - 97)))
    } else {
        None
    }
}

/// Squares `a` and `b` are on the same file.
pub open spec fn same_file(a: int, b: int) -> bool {
    a / 9 == b / 9
}

/// Squares `a` and `b` are on the same rank.
pub open spec fn same_rank(a: int, b: int) -> bool {
    a % 9 == b % 9
}

/// Squares `a` and `b` are on the same up-slanting ("/") diagonal.
pub open spec fn same_up_diagonal(a: int, b: int) -> bool {
    a % 9 - a / 9 == b % 9 - b / 9
}

/// Squares `a` and `b` are on the same down-slanting ("\\") diagonal.
pub open spec fn same_down_diagonal(a: int, b: int) -> bool {
    a % 9 + a / 9 == b % 9 + b / 9
}

impl Square {
    /// The file index (0 for file 1, 8 for file 9).
    pub open spec fn file_idx(self) -> int {
        self.idx() / 9
    }

    /// The rank index (0 for rank a, 8 for rank i).
    pub open spec fn rank_idx(self) -> int {
        self.idx() % 9
    }

    /// Make a square from a file and a rank.
    pub fn new(file: File, rank: Rank) -> (r: Square)
        ensures
            r.idx() == sq_index(file.idx(), rank.idx()),
            r.file_idx() == file.idx(),
            r.rank_idx() == rank.idx(),
    {
        proof {
            lemma_file_idx(file);
            lemma_rank_idx(rank);
        }
        Self::index_const(file.index() * 9 + rank.index())
    }

    /// The file of this square.
    pub fn file(self) -> (r: File)
        ensures
            r.idx() == self.file_idx(),
    {
        proof {
            lemma_square_idx(self);
        }
        File::index_const(self.index() / 9)
    }

    /// The rank of this square.
    pub fn rank(self) -> (r: Rank)
        ensures
            r.idx() == self.rank_idx(),
    {
        proof {
            lemma_square_idx(self);
        }
        Rank::index_const(self.index() % 9)
    }

    /// A bitboard holding only this square.
    pub fn bitboard(self) -> (r: BitBoard)
        ensures
            r.0 == 1u128 << (self.idx() as u128),
            r.wf(),
            forall|i: int| #[trigger] bit(r.0, i) == (i == self.idx()),
    {
        proof {
            lemma_square_idx(self);
            assert forall|i: int| #[trigger] bit(1u128 << (self.idx() as u128), i) == (i == self.idx()) by {
                lemma_bit_single(self.idx() as u128, i);
            }
            lemma_single_wf(self.idx() as u128);
        }
        BitBoard(1u128 << self.index())
    }

    /// Add a file and rank offset to this square, if the result lies on the board.
    ///
    /// Positive offsets move towards file 9 and rank i.
    pub fn try_offset(self, file_offset: i8, rank_offset: i8) -> (r: Option<Square>)
        requires
            self.file_idx() + file_offset <= 127,
            self.rank_idx() + rank_offset <= 127,
        ensures
            on_board(self.file_idx() + file_offset, self.rank_idx() + rank_offset) ==> r == Some(
                Square::from_idx(sq_index(self.file_idx() + file_offset, self.rank_idx() + rank_offset)),
            ),
            !on_board(self.file_idx() + file_offset, self.rank_idx() + rank_offset) ==> r is None,
    {
        proof {
            lemma_square_idx(self);
        }
        let file_index: i8 = (self.index() / 9) as i8 + file_offset;
        let rank_index: i8 = (self.index() % 9) as i8 + rank_offset;
        if file_index < 0 || file_index >= 9 || rank_index < 0 || rank_index >= 9 {
            return None;
        }
        Some(Square::index_const((file_index as usize) * 9 + (rank_index as usize)))
    }

    /// Add a file and rank offset to this square; the result must lie on the board.
    pub fn offset(self, file_offset: i8, rank_offset: i8) -> (r: Square)
        requires
            on_board(self.file_idx() + file_offset, self.rank_idx() + rank_offset),
        ensures
            r.idx() == sq_index(self.file_idx() + file_offset, self.rank_idx() + rank_offset),
    {
        proof {
            lemma_square_idx(self);
        }
        let sq = self.try_offset(file_offset, rank_offset);
        proof {
            lemma_square_from_idx(sq_index(self.file_idx() + file_offset, self.rank_idx() + rank_offset));
        }
        sq.unwrap()
    }

    /// Mirror the square in the central file 5.
    pub fn flip_file(self) -> (r: Square)
        ensures
            r.idx() == sq_index(8 - self.file_idx(), self.rank_idx()),
    {
        Self::new(self.file().flip(), self.rank())
    }

    /// Mirror the square in the central rank e.
    pub fn flip_rank(self) -> (r: Square)
        ensures
            r.idx() == sq_index(self.file_idx(), 8 - self.rank_idx()),
    {
        Self::new(self.file(), self.rank().flip())
    }

    /// Rotate the square around the center square E5.
    pub fn flip(self) -> (r: Square)
        ensures
            r.idx() == sq_index(8 - self.file_idx(), 8 - self.rank_idx()),
            r.idx() == 80 - self.idx(),
    {
        proof {
            lemma_square_idx(self);
        }
        Self::new(self.file().flip(), self.rank().flip())
    }

    /// The squares of the up-slanting ("/") diagonal through this square, this square included.
    pub fn up_diagonal(self) -> (r: BitBoard)
        ensures
            r.wf(),
            forall|i: int| #[trigger] bit(r.0, i) == (0 <= i < 81 && same_up_diagonal(self.idx(), i)),
    {
        proof {
            lemma_square_idx(self);
        }
        let d: i32 = (self.index() % 9) as i32 - (self.index() / 9) as i32;
        let mut acc: u128 = 0;
        let mut f: i32 = 0;
        proof {
            assert forall|i: int| #[trigger] bit(acc, i) == (0 <= i < 81 && i / 9 < f && same_up_diagonal(self.idx(), i)) by {
                crate::bits::lemma_bit_zero(i);
            }
        }
        while f < 9
            invariant
                0 <= f <= 9,
                d == self.idx() % 9 - self.idx() / 9,
                acc <= BOARD_MASK,
                forall|i: int| #[trigger] bit(acc, i) == (0 <= i < 81 && i / 9 < f && same_up_diagonal(self.idx(), i)),
            decreases 9 - f,
        {
            let rk = f + d;
            if 0 <= rk && rk < 9 {
                let t = Square::index_const((9 * f + rk) as usize).bitboard();
                proof {
                    assert forall|i: int| #[trigger] bit(acc | t.0, i) == (0 <= i < 81 && i / 9 < f + 1 && same_up_diagonal(self.idx(), i)) by {
                        crate::bits::lemma_bit_or(acc, t.0, i);
                    }
                    crate::bits::lemma_or_wf(acc, t.0);
                }
                acc = acc | t.0;
            } else {
                proof {
                    assert forall|i: int| #[trigger] bit(acc, i) == (0 <= i < 81 && i / 9 < f + 1 && same_up_diagonal(self.idx(), i)) by {
                        if 0 <= i < 81 && i / 9 == f && same_up_diagonal(self.idx(), i) {
                            assert(i % 9 == rk);
                        }
                    }
                }
            }
            f = f + 1;
        }
        BitBoard(acc)
    }

    /// The squares of the down-slanting ("\\") diagonal through this square, this square included.
    pub fn down_diagonal(self) -> (r: BitBoard)
        ensures
            r.wf(),
            forall|i: int| #[trigger] bit(r.0, i) == (0 <= i < 81 && same_down_diagonal(self.idx(), i)),
    {
        proof {
            lemma_square_idx(self);
        }
        let d: i32 = (self.index() % 9) as i32 + (self.index() / 9) as i32;
        let mut acc: u128 = 0;
        let mut f: i32 = 0;
        proof {
            assert forall|i: int| #[trigger] bit(acc, i) == (0 <= i < 81 && i / 9 < f && same_down_diagonal(self.idx(), i)) by {
                crate::bits::lemma_bit_zero(i);
            }
        }
        while f < 9
            invariant
                0 <= f <= 9,
                d == self.idx() % 9 + self.idx() / 9,
                acc <= BOARD_MASK,
                forall|i: int| #[trigger] bit(acc, i) == (0 <= i < 81 && i / 9 < f && same_down_diagonal(self.idx(), i)),
            decreases 9 - f,
        {
            let rk = d - f;
            if 0 <= rk && rk < 9 {
                let t = Square::index_const((9 * f + rk) as usize).bitboard();
                proof {
                    assert forall|i: int| #[trigger] bit(acc | t.0, i) == (0 <= i < 81 && i / 9 < f + 1 && same_down_diagonal(self.idx(), i)) by {
                        crate::bits::lemma_bit_or(acc, t.0, i);
                    }
                    crate::bits::lemma_or_wf(acc, t.0);
                }
                acc = acc | t.0;
            } else {
                proof {
                    assert forall|i: int| #[trigger] bit(acc, i) == (0 <= i < 81 && i / 9 < f + 1 && same_down_diagonal(self.idx(), i)) by {
                        if 0 <= i < 81 && i / 9 == f && same_down_diagonal(self.idx(), i) {
                            assert(i % 9 == rk);
                        }
                    }
                }
            }
            f = f + 1;
        }
        BitBoard(acc)
    }

    /// Parse a square name such as `7g` (file digit, then rank letter).
    pub fn try_from_bytes(b: &[u8]) -> (r: Option<Square>)
        ensures
            r == square_code(b@),
    {
        if b.len() == 2 && 49 <= b[0] && b[0] <= 57 && 97 <= b[1] && b[1] <= 105 {
            let f = (b[0] - 49) as usize;
            let rk = (b[1] - 97) as usize;
            Some(Square::index_const(9 * f + rk))
        } else {
            None
        }
    }

    /// Parse a square name such as `7g` (file digit, then rank letter).
    pub fn try_from_str(s: &str) -> (r: Option<Square>)
        ensures
            r == square_code(s.spec_bytes()),
    {
        Self::try_from_bytes(s.as_bytes())
    }

    /// The two bytes of this square's name, such as `7g`.
    pub fn to_bytes(self) -> (r: [u8; 2])
        ensures
            square_code(r@) == Some(self),
    {
        proof {
            lemma_square_idx(self);
        }
        let i = self.index();
        let r = [(49 + i / 9) as u8, (97 + i % 9) as u8];
        proof {
            lemma_square_idx(self);
            assert(Square::from_idx(self.idx()) == self);
        }
        r
    }

    /// This square as seen from `color`: Black sees it unchanged, White rotated.
    pub fn relative_to(self, color: Color) -> (r: Square)
        ensures
            color == Color::Black ==> r == self,
            color == Color::White ==> r.idx() == 80 - self.idx(),
    {
        match color {
            Color::Black => self,
            Color::White => self.flip(),
        }
    }
}

proof fn lemma_single_wf(n: u128)
    requires
        n < 81,
    ensures
        1u128 << n <= BOARD_MASK,
{
    assert(n < 81 ==> 1u128 << n <= 0x1_FFFF_FFFF_FFFF_FFFF_FFFFu128) by (bit_vector);
}

/// The index of each named square: file `f` and rank `r` (a = 0) give `9 * (f - 1) + r`.
pub proof fn lemma_square_names()
    ensures
        Square::A1.idx() == 0,
        Square::B1.idx() == 1,
        Square::C1.idx() == 2,
        Square::D1.idx() == 3,
        Square::E1.idx() == 4,
        Square::F1.idx() == 5,
        Square::G1.idx() == 6,
        Square::H1.idx() == 7,
        Square::I1.idx() == 8,
        Square::A2.idx() == 9,
        Square::B2.idx() == 10,
        Square::C2.idx() == 11,
        Square::D2.idx() == 12,
        Square::E2.idx() == 13,
        Square::F2.idx() == 14,
        Square::G2.idx() == 15,
        Square::H2.idx() == 16,
        Square::I2.idx() == 17,
        Square::A3.idx() == 18,
        Square::B3.idx() == 19,
        Square::C3.idx() == 20,
        Square::D3.idx() == 21,
        Square::E3.idx() == 22,
        Square::F3.idx() == 23,
        Square::G3.idx() == 24,
        Square::H3.idx() == 25,
        Square::I3.idx() == 26,
        Square::A4.idx() == 27,
        Square::B4.idx() == 28,
        Square::C4.idx() == 29,
        Square::D4.idx() == 30,
        Square::E4.idx() == 31,
        Square::F4.idx() == 32,
        Square::G4.idx() == 33,
        Square::H4.idx() == 34,
        Square::I4.idx() == 35,
        Square::A5.idx() == 36,
        Square::B5.idx() == 37,
        Square::C5.idx() == 38,
        Square::D5.idx() == 39,
        Square::E5.idx() == 40,
        Square::F5.idx() == 41,
        Square::G5.idx() == 42,
        Square::H5.idx() == 43,
        Square::I5.idx() == 44,
        Square::A6.idx() == 45,
        Square::B6.idx() == 46,
        Square::C6.idx() == 47,
        Square::D6.idx() == 48,
        Square::E6.idx() == 49,
        Square::F6.idx() == 50,
        Square::G6.idx() == 51,
        Square::H6.idx() == 52,
        Square::I6.idx() == 53,
        Square::A7.idx() == 54,
        Square::B7.idx() == 55,
        Square::C7.idx() == 56,
        Square::D7.idx() == 57,
        Square::E7.idx() == 58,
        Square::F7.idx() == 59,
        Square::G7.idx() == 60,
        Square::H7.idx() == 61,
        Square::I7.idx() == 62,
        Square::A8.idx() == 63,
        Square::B8.idx() == 64,
        Square::C8.idx() == 65,
        Square::D8.idx() == 66,
        Square::E8.idx() == 67,
        Square::F8.idx() == 68,
        Square::G8.idx() == 69,
        Square::H8.idx() == 70,
        Square::I8.idx() == 71,
        Square::A9.idx() == 72,
        Square::B9.idx() == 73,
        Square::C9.idx() == 74,
        Square::D9.idx() == 75,
        Square::E9.idx() == 76,
        Square::F9.idx() == 77,
        Square::G9.idx() == 78,
        Square::H9.idx() == 79,
        Square::I9.idx() == 80,
{
}

} // verus!
