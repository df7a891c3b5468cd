//! The files (columns) of a Shogi board.
use vstd::prelude::*;
use crate::bitboard::{BitBoard, bit, BOARD_MASK, lemma_bit_shl, lemma_bit_shr, lemma_bit_low_mask, lemma_bit_and, lemma_bit_board_mask, lemma_wf_high_bits};

verus! {

broadcast use crate::bits::group_bit_lemmas;

/// A file (column) on a Shogi board; File 1 is the east-most column in diagrams.
#[derive(Debug, Clone, Copy, PartialEq, Eq, Hash, PartialOrd, Ord, Structural)]
pub enum File {
    One,
    Two,
    Three,
    Four,
    Five,
    Six,
    Seven,
    Eight,
    Nine,
}

impl File {
    /// The number of values.
    pub const NUM: usize = 9;

    /// All values, in index order.
    pub const ALL: [File; 9] = [
        File::One, File::Two, File::Three, File::Four, File::Five, File::Six, File::Seven,
        File::Eight, File::Nine,
    ];

    /// The position of this value in [`Self::ALL`].
    pub open spec fn idx(self) -> int {
        match self {
            File::One => 0,
            File::Two => 1,
            File::Three => 2,
            File::Four => 3,
            File::Five => 4,
            File::Six => 5,
            File::Seven => 6,
            File::Eight => 7,
            File::Nine => 8,
        }
    }

    /// The value at position `i` of [`Self::ALL`].
    pub open spec fn from_idx(i: int) -> Self {
        if i == 0 {
            File::One
        } else if i == 1 {
            File::Two
        } else if i == 2 {
            File::Three
        } else if i == 3 {
            File::Four
        } else if i == 4 {
            File::Five
        } else if i == 5 {
            File::Six
        } else if i == 6 {
            File::Seven
        } else if i == 7 {
            File::Eight
        } else {
            File::Nine
        }
    }

    /// The position of this value in [`Self::ALL`].
    pub fn index(self) -> (r: usize)
        ensures
            r == self.idx(),
    {
        match self {
            File::One => 0,
            File::Two => 1,
            File::Three => 2,
            File::Four => 3,
            File::Five => 4,
            File::Six => 5,
            File::Seven => 6,
            File::Eight => 7,
            File::Nine => 8,
        }
    }

    /// The value at position `i` of [`Self::ALL`].
    pub fn index_const(i: usize) -> (r: Self)
        requires
            i < 9,
        ensures
            r.idx() == i,
            r == Self::from_idx(i as int),
    {
        match i {
            0 => File::One,
            1 => File::Two,
            2 => File::Three,
            3 => File::Four,
            4 => File::Five,
            5 => File::Six,
            6 => File::Seven,
            7 => File::Eight,
            _ => File::Nine,
        }
    }

    /// The value at position `i` of [`Self::ALL`], if there is one.
    pub fn try_index(i: usize) -> (r: Option<Self>)
        ensures
            i < 9 ==> r == Some(Self::from_idx(i as int)),
            i >= 9 ==> r is None,
    {
        if i < 9 {
            Some(Self::index_const(i))
        } else {
            None
        }
    }
}

/// Every value of [`File`] has a position below [`File::NUM`], and positions identify values.
pub broadcast proof fn lemma_file_idx(x: File)
    ensures
        0 <= #[trigger] x.idx() < 9,
        File::from_idx(x.idx()) == x,
{
}

/// Positions below [`File::NUM`] name exactly one value.
pub broadcast proof fn lemma_file_from_idx(i: int)
    requires
        0 <= i < 9,
    ensures
        #[trigger] File::from_idx(i).idx() == i,
{
}
/// The low nine bits: one file.
pub proof fn lemma_low_nine(i: int)
    ensures
        bit(0x1FFu128, i) == (0 <= i < 9),
{
    assert(0x1FFu128 == ((1u128 << 9u128) - 1u128) as u128) by (bit_vector);
    lemma_bit_low_mask(9, i);
}

impl File {
    /// Mirror the file in the central file 5.
    pub fn flip(self) -> (r: File)
        ensures
            r.idx() == 8 - self.idx(),
    {
        File::index_const(8 - self.index())
    }

    /// A bitboard holding every square of this file.
    pub fn bitboard(self) -> (r: BitBoard)
        ensures
            r.wf(),
            forall|i: int| #[trigger] bit(r.0, i) == (0 <= i < 81 && i / 9 == self.idx()),
    {
        let f = self.index();
        let m: u128 = 0x1FF;
        let v: u128 = m << (9 * f);
        proof {
            assert forall|i: int| #[trigger] bit(v, i) == (0 <= i < 81 && i / 9 == self.idx()) by {
                lemma_bit_shl(m, (9 * f) as u128, i);
                lemma_low_nine(i - 9 * f);
            }
            assert(v <= BOARD_MASK) by {
                assert(f < 9 ==> 0x1FFu128 << (9 * f) as u128 <= 0x1_FFFF_FFFF_FFFF_FFFF_FFFFu128)
                    by (bit_vector);
            }
        }
        BitBoard(v)
    }

    /// A bitboard holding every square west of this file (the files with higher numbers).
    pub fn west(self) -> (r: BitBoard)
        ensures
            r.wf(),
            forall|i: int| #[trigger] bit(r.0, i) == (0 <= i < 81 && i / 9 > self.idx()),
    {
        let n: u128 = 9 * (self.index() as u128 + 1);
        let v: u128 = (BOARD_MASK << n) & BOARD_MASK;
        proof {
            assert forall|i: int| #[trigger] bit(v, i) == (0 <= i < 81 && i / 9 > self.idx()) by {
                lemma_bit_and(BOARD_MASK << n, BOARD_MASK, i);
                lemma_bit_shl(BOARD_MASK, n, i);
                lemma_bit_board_mask(i);
                lemma_bit_board_mask(i - n);
            }
            assert(v <= BOARD_MASK) by {
                assert((BOARD_MASK << n) & 0x1_FFFF_FFFF_FFFF_FFFF_FFFFu128 <= 0x1_FFFF_FFFF_FFFF_FFFF_FFFFu128)
                    by (bit_vector);
            }
        }
        BitBoard(v)
    }

    /// A bitboard holding every square east of this file (the files with lower numbers).
    pub fn east(self) -> (r: BitBoard)
        ensures
            r.wf(),
            forall|i: int| #[trigger] bit(r.0, i) == (0 <= i < 81 && i / 9 < self.idx()),
    {
        let n: u128 = 9 * (9 - self.index() as u128);
        let v: u128 = BOARD_MASK >> n;
        proof {
            assert forall|i: int| #[trigger] bit(v, i) == (0 <= i < 81 && i / 9 < self.idx()) by {
                lemma_bit_shr(BOARD_MASK, n, i);
                lemma_bit_board_mask(i + n);
                if i >= 81 {
                    lemma_bit_board_mask(i + n);
                }
            }
            assert(v <= BOARD_MASK) by {
                assert(0x1_FFFF_FFFF_FFFF_FFFF_FFFFu128 >> n <= 0x1_FFFF_FFFF_FFFF_FFFF_FFFFu128)
                    by (bit_vector);
            }
        }
        BitBoard(v)
    }
}

} // verus!
